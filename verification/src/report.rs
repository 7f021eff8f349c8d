//! The report of the token comparison: for each line of the original buffer
//! in which a difference starts, the number of the line, the two paths, the
//! line of the stripped buffer and the line of the original.

use vstd::prelude::*;
use vstd::slice::slice_subrange;
use crate::lines::{find_line_end, lemma_line_count, lemma_line_start_bounds, line, line_count, line_start};
use crate::text::{decimal, lossy_text, optional_text, push_decimal, push_text, utf8_lossy};
use crate::token::Span;

verus! {

/// Some span of `diffs` starts at `from` or later and before `to`.
pub open spec fn hit(diffs: Seq<Span>, from: int, to: int) -> bool {
    exists|k: int| 0 <= k < diffs.len() && from <= (#[trigger] diffs[k]).start < to
}

/// Whether some span of `diffs` starts in `[from, to)`.
pub fn starts_within(diffs: &Vec<Span>, from: usize, to: usize) -> (found: bool)
    ensures
        found == hit(diffs@, from as int, to as int),
{
    let mut k: usize = 0;
    while k < diffs.len()
        invariant
            k <= diffs.len(),
            forall|j: int| 0 <= j < k ==> !(from <= (#[trigger] diffs@[j]).start < to),
        decreases diffs.len() - k,
    {
        let start = diffs[k].start;
        if from <= start && start < to {
            return true;
        }
        k = k + 1;
    }
    false
}

/// The text of one entry of the report: the number of the line, counted
/// from 0, the two paths, the line of the stripped buffer and the line of
/// the original, each with the terminator it has.
pub open spec fn entry(
    n: nat,
    stripped_line: Seq<u8>,
    original_line: Seq<u8>,
    o_path: Seq<char>,
    s_path: Seq<char>,
) -> Seq<char> {
    "line number "@ + decimal(n) + "\n--- "@ + o_path + "\n+++ "@ + s_path + "\n+ "@
        + lossy_text(stripped_line) + "- "@ + lossy_text(original_line)
}

/// Appends the entry of line `n` to `ret`.
fn push_entry(
    ret: &mut String,
    n: usize,
    stripped_line: &[u8],
    original_line: &[u8],
    o_path: &str,
    s_path: &str,
)
    ensures
        final(ret)@ == old(ret)@ + entry(
            n as nat,
            stripped_line@,
            original_line@,
            o_path@,
            s_path@,
        ),
{
    let other = utf8_lossy(stripped_line);
    let original = utf8_lossy(original_line);
    push_text(ret, "line number ");
    push_decimal(ret, n);
    push_text(ret, "\n--- ");
    push_text(ret, o_path);
    push_text(ret, "\n+++ ");
    push_text(ret, s_path);
    push_text(ret, "\n+ ");
    push_text(ret, other.as_str());
    push_text(ret, "- ");
    push_text(ret, original.as_str());
    assert(ret@ =~= old(ret)@ + entry(
        n as nat,
        stripped_line@,
        original_line@,
        o_path@,
        s_path@,
    ));
}

/// The entry of line `n` where a span of `diffs` starts in that line of the
/// original, else nothing.
pub open spec fn line_entry(
    orig: Seq<u8>,
    stripped: Seq<u8>,
    diffs: Seq<Span>,
    o_path: Seq<char>,
    s_path: Seq<char>,
    n: nat,
) -> Seq<char> {
    if hit(diffs, line_start(orig, n), line_start(orig, n + 1)) {
        entry(n, line(stripped, n), line(orig, n), o_path, s_path)
    } else {
        Seq::empty()
    }
}

/// The entries of the lines below `n`, in order.
pub open spec fn report_upto(
    orig: Seq<u8>,
    stripped: Seq<u8>,
    diffs: Seq<Span>,
    o_path: Seq<char>,
    s_path: Seq<char>,
    n: nat,
) -> Seq<char>
    decreases n,
{
    if n == 0 {
        Seq::empty()
    } else {
        report_upto(orig, stripped, diffs, o_path, s_path, (n - 1) as nat) + line_entry(
            orig,
            stripped,
            diffs,
            o_path,
            s_path,
            (n - 1) as nat,
        )
    }
}

/// The text of the report. One entry for each line of the original in
/// which a span of `diffs` starts, in the order of the lines; the line of
/// the stripped buffer with the same number stands beside it, empty where
/// the stripped buffer has fewer lines. An original without a single line
/// still shows its spans: in one entry for line 0, with an empty line of
/// the original.
pub open spec fn report_text(
    orig: Seq<u8>,
    stripped: Seq<u8>,
    diffs: Seq<Span>,
    o_path: Seq<char>,
    s_path: Seq<char>,
) -> Seq<char> {
    if orig.len() == 0 && diffs.len() > 0 {
        entry(0, line(stripped, 0), Seq::empty(), o_path, s_path)
    } else {
        report_upto(orig, stripped, diffs, o_path, s_path, line_count(orig))
    }
}

/// The report, or `None` where it has no entry.
pub open spec fn token_report(
    orig: Seq<u8>,
    stripped: Seq<u8>,
    diffs: Seq<Span>,
    o_path: Seq<char>,
    s_path: Seq<char>,
) -> Option<Seq<char>> {
    let text = report_text(orig, stripped, diffs, o_path, s_path);
    if text.len() == 0 {
        None
    } else {
        Some(text)
    }
}

/// Writes the report on the spans `diffs` of the original buffer.
pub fn render_token_diff(
    orig: &[u8],
    stripped: &[u8],
    diffs: &Vec<Span>,
    o_path: &str,
    s_path: &str,
) -> (report: Option<String>)
    ensures
        optional_text(report) == token_report(orig@, stripped@, diffs@, o_path@, s_path@),
{
    let mut ret = String::new();
    if orig.len() == 0 && diffs.len() > 0 {
        let s_end = find_line_end(stripped, 0);
        push_entry(&mut ret, 0, slice_subrange(stripped, 0, s_end), orig, o_path, s_path);
        proof {
            reveal_with_fuel(line_start, 2);
            assert(orig@ =~= Seq::<u8>::empty());
            assert(ret@ =~= entry(0, line(stripped@, 0), Seq::empty(), o_path@, s_path@));
            reveal_strlit("line number ");
        }
        return Some(ret);
    }
    let mut line_no: usize = 0;
    let mut o_pos: usize = 0;
    let mut s_pos: usize = 0;
    while o_pos < orig.len()
        invariant
            line_no <= o_pos <= orig.len(),
            s_pos <= stripped.len(),
            o_pos == line_start(orig@, line_no as nat),
            s_pos == line_start(stripped@, line_no as nat),
            ret@ == report_upto(orig@, stripped@, diffs@, o_path@, s_path@, line_no as nat),
        decreases orig.len() - o_pos,
    {
        let o_end = find_line_end(orig, o_pos);
        let s_end = find_line_end(stripped, s_pos);
        if starts_within(diffs, o_pos, o_end) {
            push_entry(
                &mut ret,
                line_no,
                slice_subrange(stripped, s_pos, s_end),
                slice_subrange(orig, o_pos, o_end),
                o_path,
                s_path,
            );
        } else {
            assert(ret@ =~= ret@ + Seq::<char>::empty());
        }
        o_pos = o_end;
        s_pos = s_end;
        line_no = line_no + 1;
    }
    proof {
        lemma_line_count(orig@, line_no as nat);
        lemma_report_stops(orig@, stripped@, diffs@, o_path@, s_path@, line_no as nat);
    }
    if ret.as_str().is_empty() {
        None
    } else {
        Some(ret)
    }
}

/// Past the last line of the original the report does not grow.
pub proof fn lemma_report_stops(
    orig: Seq<u8>,
    stripped: Seq<u8>,
    diffs: Seq<Span>,
    o_path: Seq<char>,
    s_path: Seq<char>,
    n: nat,
)
    requires
        line_start(orig, n) >= orig.len(),
    ensures
        report_upto(orig, stripped, diffs, o_path, s_path, n) == report_upto(
            orig,
            stripped,
            diffs,
            o_path,
            s_path,
            line_count(orig),
        ),
    decreases n,
{
    lemma_line_count(orig, n);
    if n > line_count(orig) {
        let m = (n - 1) as nat;
        lemma_line_count(orig, m);
        lemma_line_start_bounds(orig, m);
        lemma_line_start_bounds(orig, n);
        lemma_report_stops(orig, stripped, diffs, o_path, s_path, m);
        assert(!hit(diffs, line_start(orig, m), line_start(orig, n)));
        assert(report_upto(orig, stripped, diffs, o_path, s_path, n) =~= report_upto(
            orig,
            stripped,
            diffs,
            o_path,
            s_path,
            m,
        ));
    }
}

/// Without spans there are no entries.
pub proof fn lemma_no_diffs_no_report(
    orig: Seq<u8>,
    stripped: Seq<u8>,
    diffs: Seq<Span>,
    o_path: Seq<char>,
    s_path: Seq<char>,
    n: nat,
)
    requires
        diffs.len() == 0,
    ensures
        report_upto(orig, stripped, diffs, o_path, s_path, n).len() == 0,
    decreases n,
{
    if n > 0 {
        lemma_no_diffs_no_report(orig, stripped, diffs, o_path, s_path, (n - 1) as nat);
    }
}

/// The report holds the entry of each of its lines.
pub proof fn lemma_report_holds_entry(
    orig: Seq<u8>,
    stripped: Seq<u8>,
    diffs: Seq<Span>,
    o_path: Seq<char>,
    s_path: Seq<char>,
    n: nat,
    m: nat,
)
    requires
        m < n,
    ensures
        report_upto(orig, stripped, diffs, o_path, s_path, n).len() >= line_entry(
            orig,
            stripped,
            diffs,
            o_path,
            s_path,
            m,
        ).len(),
    decreases n,
{
    if m < n - 1 {
        lemma_report_holds_entry(orig, stripped, diffs, o_path, s_path, (n - 1) as nat, m);
    }
}

} // verus!
