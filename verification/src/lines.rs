//! Lines of a buffer. A line ends with a newline, a carriage return or the
//! byte 0xff, which stays attached to it; the last line may end without one.
//! The lines partition the buffer: each starts where the one before ends.

use vstd::prelude::*;

verus! {

/// Whether `b` ends a line.
pub open spec fn ends_line(b: u8) -> bool {
    b == 0x0a || b == 0x0d || b == 0xff
}

/// The end (exclusive) of the line that starts at `start`: one past the
/// first terminator at or after `start`, or the end of the buffer.
pub open spec fn line_end(s: Seq<u8>, start: int) -> int
    decreases s.len() - start,
{
    if start < 0 || start >= s.len() {
        s.len() as int
    } else if ends_line(s[start]) {
        start + 1
    } else {
        line_end(s, start + 1)
    }
}

/// The offset at which line `n` starts, counting from 0. Past the last line
/// it is the length of the buffer.
pub open spec fn line_start(s: Seq<u8>, n: nat) -> int
    decreases n,
{
    if n == 0 {
        0
    } else {
        line_end(s, line_start(s, (n - 1) as nat))
    }
}

/// The bytes of line `n`, terminator included; empty past the last line.
pub open spec fn line(s: Seq<u8>, n: nat) -> Seq<u8> {
    s.subrange(line_start(s, n), line_start(s, n + 1))
}

/// The number of lines that start at `start` or later.
pub open spec fn lines_from(s: Seq<u8>, start: int) -> nat
    decreases s.len() - start,
    when 0 <= start
    via lines_from_decreases
{
    if start >= s.len() {
        0
    } else {
        1 + lines_from(s, line_end(s, start))
    }
}

#[via_fn]
proof fn lines_from_decreases(s: Seq<u8>, start: int) {
    if start < s.len() {
        lemma_line_end_bounds(s, start);
    }
}

/// The number of lines of `s`.
pub open spec fn line_count(s: Seq<u8>) -> nat {
    lines_from(s, 0)
}

/// A line that starts inside the buffer is not empty and ends inside it.
pub proof fn lemma_line_end_bounds(s: Seq<u8>, start: int)
    requires
        0 <= start < s.len(),
    ensures
        start < line_end(s, start) <= s.len(),
    decreases s.len() - start,
{
    if !ends_line(s[start]) {
        if start + 1 < s.len() {
            lemma_line_end_bounds(s, start + 1);
        } else {
            assert(line_end(s, start + 1) == s.len());
        }
    }
}

/// Line starts never decrease, and stay within the buffer.
pub proof fn lemma_line_start_bounds(s: Seq<u8>, n: nat)
    ensures
        0 <= line_start(s, n) <= line_start(s, n + 1) <= s.len(),
    decreases n,
{
    if n > 0 {
        lemma_line_start_bounds(s, (n - 1) as nat);
    }
    if line_start(s, n) < s.len() {
        lemma_line_end_bounds(s, line_start(s, n));
    }
}

/// Line `n` starts inside the buffer exactly when `n` is less than the
/// number of lines.
pub proof fn lemma_line_count(s: Seq<u8>, n: nat)
    ensures
        line_start(s, n) < s.len() <==> n < line_count(s),
        line_start(s, n) < s.len() ==> lines_from(s, line_start(s, n)) + n == line_count(s),
    decreases n,
{
    lemma_line_start_bounds(s, n);
    if n > 0 {
        let m = (n - 1) as nat;
        lemma_line_count(s, m);
        lemma_line_start_bounds(s, m);
        if line_start(s, m) < s.len() {
            assert(lines_from(s, line_start(s, m)) == 1 + lines_from(s, line_start(s, n)));
        }
    }
}

/// Every offset inside the buffer lies in exactly one line, which is one of
/// the `line_count` lines.
pub proof fn lemma_offset_has_line(s: Seq<u8>, offset: int) -> (n: nat)
    requires
        0 <= offset < s.len(),
    ensures
        n < line_count(s),
        line_start(s, n) <= offset < line_start(s, n + 1),
{
    let n = lemma_offset_has_line_from(s, offset, 0);
    lemma_line_start_bounds(s, n);
    lemma_line_count(s, n);
    n
}

proof fn lemma_offset_has_line_from(s: Seq<u8>, offset: int, from: nat) -> (n: nat)
    requires
        0 <= offset < s.len(),
        line_start(s, from) <= offset,
    ensures
        line_start(s, n) <= offset < line_start(s, n + 1),
    decreases s.len() - line_start(s, from),
{
    lemma_line_start_bounds(s, from);
    lemma_line_end_bounds(s, line_start(s, from));
    if offset < line_start(s, from + 1) {
        from
    } else {
        lemma_offset_has_line_from(s, offset, from + 1)
    }
}

/// The end of the line of `s` that starts at `start`.
pub fn find_line_end(s: &[u8], start: usize) -> (end: usize)
    requires
        start <= s.len(),
    ensures
        end == line_end(s@, start as int),
        start <= end <= s.len(),
        start < s.len() ==> start < end,
{
    let mut i: usize = start;
    while i < s.len()
        invariant
            start <= i <= s.len(),
            line_end(s@, start as int) == line_end(s@, i as int),
        decreases s.len() - i,
    {
        let b = s[i];
        if b == 0x0a || b == 0x0d || b == 0xff {
            return i + 1;
        }
        i = i + 1;
    }
    i
}

} // verus!
