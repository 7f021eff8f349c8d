//! Long brackets: `[[ .. ]]`, `[=[ .. ]=]` and so on, as Lua writes long
//! strings and long comments.
//!
//! The lexer reads on to the end of the buffer for the closing sequence of a
//! long bracket that it has entered, and does not come back when there is
//! none. A buffer is therefore looked over before it is handed to the lexer.
//! The scan follows the lexer from byte to byte through the contexts that
//! decide where a token starts: names, numerals, quoted strings with their
//! escapes, line comments, and the sequences that open a long bracket. A
//! `[[` inside a quoted string or a line comment opens nothing, for the
//! lexer as for the scan. A buffer is turned down exactly when the lexer
//! would be inside a long bracket at its end.

use vstd::prelude::*;

verus! {

/// Where the lexer stands after a byte.
#[derive(Clone, Copy, Debug, PartialEq, Eq, Structural)]
pub enum Context {
    /// Before the first byte, where alone `#` starts a comment.
    Start,
    /// Between tokens.
    Code,
    /// In a name or keyword.
    Name,
    /// After the `0` that starts a numeral.
    Zero,
    /// In the digits of a decimal numeral.
    Dec,
    /// In the digits behind the point of a decimal numeral.
    DecFrac,
    /// After the `e` of a decimal numeral.
    Exp,
    /// In the digits of a decimal exponent.
    ExpDigits,
    /// In the digits of a hexadecimal numeral.
    Hex,
    /// In the digits behind the point of a hexadecimal numeral.
    HexFrac,
    /// After the `p` of a hexadecimal numeral.
    HexExp,
    /// In the digits of a hexadecimal exponent.
    HexExpDigits,
    /// After a `.` that starts a token.
    Dot,
    /// After `..`.
    Dot2,
    /// After a `-` that starts a token.
    Minus,
    /// In a string between quotes; `escaped` after a backslash that is not
    /// itself escaped.
    Quote { quote: u8, escaped: bool },
    /// After `--`, or after `#` at the start of the buffer.
    CommentStart,
    /// After the `[` at `open` that follows the start of a comment, and
    /// `level` times `=`.
    CommentOpen { open: usize, level: usize },
    /// In a comment that ends with its line.
    LineComment,
    /// After a `[` at `open` that starts a token.
    Bracket { open: usize },
    /// After a `[` at `open` that starts a token, and `level` times `=`.
    StringOpen { open: usize, level: usize },
    /// In the long bracket of `level` that was opened at `open`.
    Long { open: usize, level: usize },
    /// In that long bracket, after a `]` and `found` times `=`.
    Closing { open: usize, level: usize, found: usize },
}

pub const OPEN: u8 = 0x5b;

pub const CLOSE: u8 = 0x5d;

pub const EQUALS: u8 = 0x3d;

pub const MINUS: u8 = 0x2d;

pub const PLUS: u8 = 0x2b;

pub const POINT: u8 = 0x2e;

pub const HASH: u8 = 0x23;

pub const BACKSLASH: u8 = 0x5c;

pub const DOUBLE_QUOTE: u8 = 0x22;

pub const SINGLE_QUOTE: u8 = 0x27;

pub const LINE_FEED: u8 = 0x0a;

pub const UNDERSCORE: u8 = 0x5f;

/// `0` to `9`.
pub open spec fn is_digit(b: u8) -> bool {
    0x30 <= b <= 0x39
}

/// `0` to `9`, `a` to `f`, `A` to `F`.
pub open spec fn is_hex_digit(b: u8) -> bool {
    is_digit(b) || 0x41 <= b <= 0x46 || 0x61 <= b <= 0x66
}

/// A letter of ASCII.
pub open spec fn is_letter(b: u8) -> bool {
    0x41 <= b <= 0x5a || 0x61 <= b <= 0x7a
}

/// A byte that continues a name: a letter, a digit or `_`.
pub open spec fn continues_name(b: u8) -> bool {
    is_letter(b) || is_digit(b) || b == UNDERSCORE
}

/// `e` or `E`.
pub open spec fn is_e(b: u8) -> bool {
    b == 0x65 || b == 0x45
}

/// `p` or `P`.
pub open spec fn is_p(b: u8) -> bool {
    b == 0x70 || b == 0x50
}

/// `x` or `X`.
pub open spec fn is_x(b: u8) -> bool {
    b == 0x78 || b == 0x58
}

/// `+` or `-`.
pub open spec fn is_sign(b: u8) -> bool {
    b == PLUS || b == MINUS
}

/// The context after the byte `b` at offset `at`, read where a token may
/// start.
pub open spec fn from_code(b: u8, at: usize) -> Context {
    if b == 0x30 {
        Context::Zero
    } else if is_digit(b) {
        Context::Dec
    } else if b == DOUBLE_QUOTE || b == SINGLE_QUOTE {
        Context::Quote { quote: b, escaped: false }
    } else if is_letter(b) || b == UNDERSCORE {
        Context::Name
    } else if b == MINUS {
        Context::Minus
    } else if b == POINT {
        Context::Dot
    } else if b == OPEN {
        Context::Bracket { open: at }
    } else {
        Context::Code
    }
}

/// The context after the byte `b`, read in the digits of a decimal numeral.
pub open spec fn from_dec(b: u8, at: usize) -> Context {
    if is_digit(b) {
        Context::Dec
    } else if b == POINT {
        Context::DecFrac
    } else if is_e(b) {
        Context::Exp
    } else {
        from_code(b, at)
    }
}

/// The context after the byte `b`, read in a comment that ends with its
/// line.
pub open spec fn from_comment(b: u8) -> Context {
    if b == LINE_FEED {
        Context::Code
    } else {
        Context::LineComment
    }
}

/// The context after the byte `b`, read in a long bracket in search of a
/// `]`.
pub open spec fn from_long(b: u8, open: usize, level: usize) -> Context {
    if b == CLOSE {
        Context::Closing { open, level, found: 0 }
    } else {
        Context::Long { open, level }
    }
}

/// The context after the byte `b` at offset `at`, read in `context`.
pub open spec fn step_context(context: Context, b: u8, at: usize) -> Context {
    match context {
        Context::Start => if b == HASH {
            Context::CommentStart
        } else {
            from_code(b, at)
        },
        Context::Code => from_code(b, at),
        Context::Name => if continues_name(b) {
            Context::Name
        } else {
            from_code(b, at)
        },
        Context::Zero => if is_x(b) {
            Context::Hex
        } else {
            from_dec(b, at)
        },
        Context::Dec => from_dec(b, at),
        Context::DecFrac => if is_digit(b) {
            Context::DecFrac
        } else if is_e(b) {
            Context::Exp
        } else {
            from_code(b, at)
        },
        Context::Exp => if is_sign(b) || is_digit(b) {
            Context::ExpDigits
        } else {
            from_code(b, at)
        },
        Context::ExpDigits => if is_digit(b) {
            Context::ExpDigits
        } else {
            from_code(b, at)
        },
        Context::Hex => if is_hex_digit(b) {
            Context::Hex
        } else if b == POINT {
            Context::HexFrac
        } else if is_p(b) {
            Context::HexExp
        } else {
            from_code(b, at)
        },
        Context::HexFrac => if is_hex_digit(b) {
            Context::HexFrac
        } else if is_p(b) {
            Context::HexExp
        } else {
            from_code(b, at)
        },
        Context::HexExp => if is_sign(b) || is_hex_digit(b) {
            Context::HexExpDigits
        } else {
            from_code(b, at)
        },
        Context::HexExpDigits => if is_hex_digit(b) {
            Context::HexExpDigits
        } else {
            from_code(b, at)
        },
        Context::Dot => if is_digit(b) {
            Context::DecFrac
        } else if b == POINT {
            Context::Dot2
        } else {
            from_code(b, at)
        },
        Context::Dot2 => if b == POINT {
            Context::Code
        } else {
            from_code(b, at)
        },
        Context::Minus => if b == MINUS {
            Context::CommentStart
        } else {
            from_code(b, at)
        },
        Context::Quote { quote, escaped } => if b == quote && !escaped {
            Context::Code
        } else {
            Context::Quote { quote, escaped: b == BACKSLASH && !escaped }
        },
        Context::CommentStart => if b == OPEN {
            Context::CommentOpen { open: at, level: 0 }
        } else {
            from_comment(b)
        },
        Context::CommentOpen { open, level } => if b == EQUALS {
            Context::CommentOpen { open, level: (level + 1) as usize }
        } else if b == OPEN {
            Context::Long { open, level }
        } else {
            from_comment(b)
        },
        Context::LineComment => from_comment(b),
        Context::Bracket { open } => if b == OPEN {
            Context::Long { open, level: 0 }
        } else if b == EQUALS {
            Context::StringOpen { open, level: 1 }
        } else {
            from_code(b, at)
        },
        Context::StringOpen { open, level } => if b == EQUALS {
            Context::StringOpen { open, level: (level + 1) as usize }
        } else {
            from_long(b, open, level)
        },
        Context::Long { open, level } => from_long(b, open, level),
        Context::Closing { open, level, found } => if found == level {
            if b == CLOSE {
                Context::Code
            } else {
                Context::Long { open, level }
            }
        } else if b == EQUALS {
            Context::Closing { open, level, found: (found + 1) as usize }
        } else {
            from_long(b, open, level)
        },
    }
}

/// The context after the first `n` bytes of `s`.
pub open spec fn context_after(s: Seq<u8>, n: nat) -> Context
    decreases n,
{
    if n == 0 {
        Context::Start
    } else {
        step_context(context_after(s, (n - 1) as nat), s[n - 1], (n - 1) as usize)
    }
}

/// The offset of the `[` of the long bracket that the lexer is inside of, or
/// is about to search the end of, in `context`.
pub open spec fn open_in(context: Context) -> Option<usize> {
    match context {
        Context::StringOpen { open, level } => Some(open),
        Context::Long { open, level } => Some(open),
        Context::Closing { open, level, found } => Some(open),
        _ => None,
    }
}

/// The offset of the `[` of the long bracket that is open at the end of
/// `s`.
pub open spec fn open_bracket(s: Seq<u8>) -> Option<usize> {
    open_in(context_after(s, s.len()))
}

/// Every long bracket that the lexer enters in `s` is closed.
pub open spec fn long_brackets_closed(s: Seq<u8>) -> bool {
    open_bracket(s) is None
}

/// The offset of the `[` that `context` has read as the possible start of a
/// long bracket, or as the start of the one it is inside of.
pub open spec fn opened_at(context: Context) -> Option<usize> {
    match context {
        Context::CommentOpen { open, level } => Some(open),
        Context::Bracket { open } => Some(open),
        Context::StringOpen { open, level } => Some(open),
        Context::Long { open, level } => Some(open),
        Context::Closing { open, level, found } => Some(open),
        _ => None,
    }
}

/// The part of `s` that the lexer reads and comes back from: all of it, or
/// what stands before the long bracket that is left open.
pub open spec fn lexable_part(s: Seq<u8>) -> Seq<u8> {
    match open_bracket(s) {
        Some(open) => s.take(open as int),
        None => s,
    }
}

/// The context after `n` bytes depends on those bytes alone.
pub proof fn lemma_context_of_prefix(s: Seq<u8>, k: int, n: nat)
    requires
        n <= k <= s.len(),
    ensures
        context_after(s.take(k), n) == context_after(s, n),
    decreases n,
{
    if n > 0 {
        lemma_context_of_prefix(s, k, (n - 1) as nat);
    }
}

/// A `[` that the lexer has read as the start of a long bracket lies among
/// the bytes read, and before it the lexer was inside no long bracket.
pub proof fn lemma_opened_outside(s: Seq<u8>, n: nat)
    requires
        n <= s.len(),
        n <= usize::MAX,
    ensures
        opened_at(context_after(s, n)) matches Some(open) ==> open < n && open_in(
            context_after(s, open as nat),
        ) is None,
    decreases n,
{
    if n > 0 {
        lemma_opened_outside(s, (n - 1) as nat);
        let before = context_after(s, (n - 1) as nat);
        let now = step_context(before, s[n - 1], (n - 1) as usize);
        if let Some(open) = opened_at(now) {
            if opened_at(before) != Some(open) {
                assert(open == n - 1);
                assert(open_in(before) is None);
            }
        }
    }
}

/// What stands before a long bracket that is left open has every long
/// bracket closed.
pub proof fn lemma_prefix_closed(s: Seq<u8>)
    requires
        s.len() <= usize::MAX,
    ensures
        open_bracket(s) matches Some(open) ==> open < s.len() && long_brackets_closed(
            s.take(open as int),
        ),
        long_brackets_closed(lexable_part(s)),
{
    if let Some(open) = open_bracket(s) {
        lemma_opened_outside(s, s.len());
        lemma_context_of_prefix(s, open as int, open as nat);
    }
}

/// The counters of `context` are at most `n`.
pub open spec fn counted(context: Context, n: int) -> bool {
    match context {
        Context::CommentOpen { open, level } => level <= n,
        Context::StringOpen { open, level } => level <= n,
        Context::Closing { open, level, found } => found <= n,
        _ => true,
    }
}

fn after_code(b: u8, at: usize) -> (next: Context)
    ensures
        next == from_code(b, at),
        counted(next, 0),
{
    if b == 0x30 {
        Context::Zero
    } else if 0x30 <= b && b <= 0x39 {
        Context::Dec
    } else if b == DOUBLE_QUOTE || b == SINGLE_QUOTE {
        Context::Quote { quote: b, escaped: false }
    } else if (0x41 <= b && b <= 0x5a) || (0x61 <= b && b <= 0x7a) || b == UNDERSCORE {
        Context::Name
    } else if b == MINUS {
        Context::Minus
    } else if b == POINT {
        Context::Dot
    } else if b == OPEN {
        Context::Bracket { open: at }
    } else {
        Context::Code
    }
}

fn digit(b: u8) -> (yes: bool)
    ensures
        yes == is_digit(b),
{
    0x30 <= b && b <= 0x39
}

fn hex_digit(b: u8) -> (yes: bool)
    ensures
        yes == is_hex_digit(b),
{
    (0x30 <= b && b <= 0x39) || (0x41 <= b && b <= 0x46) || (0x61 <= b && b <= 0x66)
}

fn after_dec(b: u8, at: usize) -> (next: Context)
    ensures
        next == from_dec(b, at),
        counted(next, 0),
{
    if digit(b) {
        Context::Dec
    } else if b == POINT {
        Context::DecFrac
    } else if b == 0x65 || b == 0x45 {
        Context::Exp
    } else {
        after_code(b, at)
    }
}

fn after_comment(b: u8) -> (next: Context)
    ensures
        next == from_comment(b),
{
    if b == LINE_FEED {
        Context::Code
    } else {
        Context::LineComment
    }
}

fn after_long(b: u8, open: usize, level: usize) -> (next: Context)
    ensures
        next == from_long(b, open, level),
        counted(next, 0),
{
    if b == CLOSE {
        Context::Closing { open, level, found: 0 }
    } else {
        Context::Long { open, level }
    }
}

/// The context that follows `context` on the byte `b` at offset `at`.
fn advance(context: Context, b: u8, at: usize) -> (next: Context)
    requires
        counted(context, at as int),
        at < usize::MAX,
    ensures
        next == step_context(context, b, at),
        counted(next, at + 1),
{
    let e = b == 0x65 || b == 0x45;
    let p = b == 0x70 || b == 0x50;
    let sign = b == PLUS || b == MINUS;
    match context {
        Context::Start => if b == HASH {
            Context::CommentStart
        } else {
            after_code(b, at)
        },
        Context::Code => after_code(b, at),
        Context::Name => if digit(b) || (0x41 <= b && b <= 0x5a) || (0x61 <= b && b <= 0x7a) || b
            == UNDERSCORE {
            Context::Name
        } else {
            after_code(b, at)
        },
        Context::Zero => if b == 0x78 || b == 0x58 {
            Context::Hex
        } else {
            after_dec(b, at)
        },
        Context::Dec => after_dec(b, at),
        Context::DecFrac => if digit(b) {
            Context::DecFrac
        } else if e {
            Context::Exp
        } else {
            after_code(b, at)
        },
        Context::Exp => if sign || digit(b) {
            Context::ExpDigits
        } else {
            after_code(b, at)
        },
        Context::ExpDigits => if digit(b) {
            Context::ExpDigits
        } else {
            after_code(b, at)
        },
        Context::Hex => if hex_digit(b) {
            Context::Hex
        } else if b == POINT {
            Context::HexFrac
        } else if p {
            Context::HexExp
        } else {
            after_code(b, at)
        },
        Context::HexFrac => if hex_digit(b) {
            Context::HexFrac
        } else if p {
            Context::HexExp
        } else {
            after_code(b, at)
        },
        Context::HexExp => if sign || hex_digit(b) {
            Context::HexExpDigits
        } else {
            after_code(b, at)
        },
        Context::HexExpDigits => if hex_digit(b) {
            Context::HexExpDigits
        } else {
            after_code(b, at)
        },
        Context::Dot => if digit(b) {
            Context::DecFrac
        } else if b == POINT {
            Context::Dot2
        } else {
            after_code(b, at)
        },
        Context::Dot2 => if b == POINT {
            Context::Code
        } else {
            after_code(b, at)
        },
        Context::Minus => if b == MINUS {
            Context::CommentStart
        } else {
            after_code(b, at)
        },
        Context::Quote { quote, escaped } => if b == quote && !escaped {
            Context::Code
        } else {
            Context::Quote { quote, escaped: b == BACKSLASH && !escaped }
        },
        Context::CommentStart => if b == OPEN {
            Context::CommentOpen { open: at, level: 0 }
        } else {
            after_comment(b)
        },
        Context::CommentOpen { open, level } => if b == EQUALS {
            Context::CommentOpen { open, level: level + 1 }
        } else if b == OPEN {
            Context::Long { open, level }
        } else {
            after_comment(b)
        },
        Context::LineComment => after_comment(b),
        Context::Bracket { open } => if b == OPEN {
            Context::Long { open, level: 0 }
        } else if b == EQUALS {
            Context::StringOpen { open, level: 1 }
        } else {
            after_code(b, at)
        },
        Context::StringOpen { open, level } => if b == EQUALS {
            Context::StringOpen { open, level: level + 1 }
        } else {
            after_long(b, open, level)
        },
        Context::Long { open, level } => after_long(b, open, level),
        Context::Closing { open, level, found } => if found == level {
            if b == CLOSE {
                Context::Code
            } else {
                Context::Long { open, level }
            }
        } else if b == EQUALS {
            Context::Closing { open, level, found: found + 1 }
        } else {
            after_long(b, open, level)
        },
    }
}

/// The offset of the `[` of the long bracket that the lexer would still be
/// inside of at the end of `s`; `None` where it would come to the end of
/// `s` outside of any.
pub fn first_open_long_bracket(s: &[u8]) -> (res: Option<usize>)
    ensures
        res == open_bracket(s@),
        res matches Some(open) ==> open < s@.len() && long_brackets_closed(s@.take(open as int)),
{
    proof {
        assert(s@.len() == s.len());
        lemma_prefix_closed(s@);
    }
    let mut context = Context::Start;
    let mut i: usize = 0;
    while i < s.len()
        invariant
            i <= s.len(),
            context == context_after(s@, i as nat),
            counted(context, i as int),
        decreases s.len() - i,
    {
        context = advance(context, s[i], i);
        i = i + 1;
    }
    match context {
        Context::StringOpen { open, level } => Some(open),
        Context::Long { open, level } => Some(open),
        Context::Closing { open, level, found } => Some(open),
        _ => None,
    }
}

} // verus!
