//! Pointing at a byte of a buffer: the line that holds it, and under it a
//! caret.

use vstd::prelude::*;
use vstd::slice::slice_subrange;
use crate::text::{lossy_text, push_char, push_repeated, push_text, repeated, utf8_lossy};

verus! {

pub const NEWLINE: u8 = 0x0a;

/// The offset after the last newline before `offset`; 0 where there is
/// none.
pub open spec fn line_start_before(s: Seq<u8>, offset: int) -> int
    decreases offset,
{
    if offset <= 0 || offset > s.len() {
        0
    } else if s[offset - 1] == NEWLINE {
        offset
    } else {
        line_start_before(s, offset - 1)
    }
}

/// The offset of the first newline at `from` or later; the length of the
/// buffer where there is none.
pub open spec fn newline_from(s: Seq<u8>, from: int) -> int
    decreases s.len() - from,
{
    if from < 0 || from >= s.len() {
        s.len() as int
    } else if s[from] == NEWLINE {
        from
    } else {
        newline_from(s, from + 1)
    }
}

/// A caret under column `position`, columns counted from 0: `position`
/// blanks and the caret.
pub open spec fn caret_line(position: nat) -> Seq<char> {
    repeated(' ', position).push('^')
}

/// The line of `lua` that holds the byte at `offset`, without its newline
/// and as text; under it a caret in the column of that byte.
pub open spec fn pointed_line(lua: Seq<u8>, offset: nat) -> Seq<char> {
    let start = line_start_before(lua, offset as int);
    let end = newline_from(lua, start);
    (lossy_text(lua.subrange(start, end)) + seq!['\n']) + caret_line((offset - start) as nat)
}

/// The start of the line that holds `offset`.
fn find_line_start(lua: &[u8], offset: usize) -> (start: usize)
    requires
        offset <= lua.len(),
    ensures
        start == line_start_before(lua@, offset as int),
        start <= offset,
{
    let mut i: usize = offset;
    while i > 0 && lua[i - 1] != NEWLINE
        invariant
            i <= offset <= lua.len(),
            line_start_before(lua@, offset as int) == line_start_before(lua@, i as int),
        decreases i,
    {
        i = i - 1;
    }
    i
}

/// The first newline at `from` or later.
fn find_newline(lua: &[u8], from: usize) -> (end: usize)
    requires
        from <= lua.len(),
    ensures
        end == newline_from(lua@, from as int),
        from <= end <= lua.len(),
{
    let mut i: usize = from;
    while i < lua.len() && lua[i] != NEWLINE
        invariant
            from <= i <= lua.len(),
            newline_from(lua@, from as int) == newline_from(lua@, i as int),
        decreases lua.len() - i,
    {
        i = i + 1;
    }
    i
}

/// Shows where `offset` lies in `lua`: the line that holds it, and on the
/// next line a caret under the byte at `offset`. The column is counted in
/// bytes from the start of the line. Every offset up to the length of the
/// buffer is admitted. That holds also of an offset inside a character of
/// several bytes and of a buffer that is no valid UTF-8: the line is cut
/// out at bytes and decoded afterwards. At the length of the buffer the
/// caret stands behind the last line.
pub fn point_to_offset(lua: &[u8], offset: usize) -> (text: String)
    requires
        offset <= lua@.len(),
    ensures
        text@ == pointed_line(lua@, offset as nat),
{
    let start = find_line_start(lua, offset);
    let end = find_newline(lua, start);
    let mut text = utf8_lossy(slice_subrange(lua, start, end));
    push_char(&mut text, '\n');
    push_repeated(&mut text, ' ', offset - start);
    push_char(&mut text, '^');
    proof {
        let head = lossy_text(lua@.subrange(start as int, end as int)) + seq!['\n'];
        assert(text@ =~= head + repeated(' ', (offset - start) as nat).push('^'));
    }
    text
}

} // verus!
