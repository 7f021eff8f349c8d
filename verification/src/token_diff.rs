//! The token comparison: two buffers are lexed, their comments set aside,
//! and the remaining tokens compared position by position. Each position at
//! which they differ is anchored to a span of the original buffer.

use vstd::prelude::*;
use vstd::slice::slice_subrange;
use crate::brackets::{lexable_part, open_bracket};
use crate::lexer::{lex, lua_tokens, tokenize, well_placed};
use crate::lines::{lemma_offset_has_line, line_count, line_start};
use crate::report::{
    hit, lemma_no_diffs_no_report, lemma_report_holds_entry, render_token_diff, token_report,
};
use crate::text::optional_text;
use crate::token::{same_value, token_views, Span, Token, TokenKind, TokenView};

verus! {

/// Which of the two buffers of a comparison is meant.
#[derive(Clone, Copy, Debug, PartialEq, Eq, Structural)]
pub enum Buffer {
    Original,
    Stripped,
}

/// Why a buffer could not be turned into tokens.
#[derive(Clone, Copy, Debug, PartialEq, Eq, Structural)]
pub enum Fault {
    /// A long bracket is opened and never closed.
    OpenLongBracket,
    /// The lexer met bytes that it could not classify: lexer and parser
    /// disagree on the grammar.
    UnknownToken,
}

/// A fault and the byte offset at which it starts.
#[derive(Clone, Copy, Debug, PartialEq, Eq, Structural)]
pub struct LexError {
    pub fault: Fault,
    pub offset: usize,
}

/// A fault, the buffer that holds it, and the byte offset at which it starts.
#[derive(Clone, Copy, Debug, PartialEq, Eq, Structural)]
pub struct DiffError {
    pub buffer: Buffer,
    pub fault: Fault,
    pub offset: usize,
}

/// The tokens that are no comments, in order.
pub open spec fn significant(tokens: Seq<TokenView>) -> Seq<TokenView>
    decreases tokens.len(),
{
    if tokens.len() == 0 {
        Seq::empty()
    } else if tokens.last().kind == TokenKind::Comment {
        significant(tokens.drop_last())
    } else {
        significant(tokens.drop_last()).push(tokens.last())
    }
}

/// The index of the first unknown token at `from` or later; the length of
/// the sequence where there is none.
pub open spec fn first_unknown_from(tokens: Seq<TokenView>, from: int) -> int
    decreases tokens.len() - from,
{
    if from < 0 || from >= tokens.len() {
        tokens.len() as int
    } else if tokens[from].kind == TokenKind::Unknown {
        from
    } else {
        first_unknown_from(tokens, from + 1)
    }
}

/// What becomes of a buffer's tokens: the start of the first unknown token,
/// or the tokens without the comments.
pub open spec fn split_outcome(tokens: Seq<TokenView>) -> Result<Seq<TokenView>, usize> {
    let u = first_unknown_from(tokens, 0);
    if u < tokens.len() {
        Err(tokens[u].span.start)
    } else {
        Ok(significant(tokens))
    }
}

/// The view of what [`split_tokens`] returns.
pub open spec fn split_view(res: Result<Vec<Token>, usize>) -> Result<Seq<TokenView>, usize> {
    match res {
        Ok(tokens) => Ok(token_views(tokens@)),
        Err(offset) => Err(offset),
    }
}

/// Sets the comments aside. An unknown token ends the work: the result is
/// then the offset at which the first one starts.
pub fn split_tokens(tokens: Vec<Token>) -> (res: Result<Vec<Token>, usize>)
    ensures
        split_view(res) == split_outcome(token_views(tokens@)),
{
    let mut out: Vec<Token> = Vec::new();
    let ghost all = token_views(tokens@);
    for t in it: tokens
        invariant
            it.seq() == tokens@,
            all == token_views(tokens@),
            token_views(out@) == significant(all.take(it.index() as int)),
            first_unknown_from(all, 0) == first_unknown_from(all, it.index() as int),
    {
        proof {
            let i = it.index() as int;
            assert(all.take(i + 1).drop_last() == all.take(i));
            assert(all.take(i + 1).last() == t@);
            assert(all[i] == t@);
        }
        let ghost before = token_views(out@);
        match t.kind {
            TokenKind::Comment => {},
            TokenKind::Unknown => {
                return Err(t.span.start);
            },
            _ => {
                out.push(t);
                assert(token_views(out@) == before.push(t@));
            },
        }
    }
    assert(all.take(all.len() as int) == all);
    Ok(out)
}

/// What lexing makes of the buffer `src`, where `tokens` are the tokens of
/// the part of it that the lexer comes back from: the first unknown token,
/// else the long bracket that is left open, else the tokens without the
/// comments. An unknown token that stands before the open bracket is the
/// fault that the lexer meets first.
pub open spec fn lex_outcome(src: Seq<u8>, tokens: Seq<TokenView>) -> Result<
    Seq<TokenView>,
    LexError,
> {
    match split_outcome(tokens) {
        Err(offset) => Err(LexError { fault: Fault::UnknownToken, offset }),
        Ok(kept) => match open_bracket(src) {
            Some(offset) => Err(LexError { fault: Fault::OpenLongBracket, offset }),
            None => Ok(kept),
        },
    }
}

/// The view of what [`get_split_token`] returns.
pub open spec fn lex_view(res: Result<Vec<Token>, LexError>) -> Result<Seq<TokenView>, LexError> {
    match res {
        Ok(tokens) => Ok(token_views(tokens@)),
        Err(e) => Err(e),
    }
}

/// The tokens of `l` without its comments, in the order of the buffer. An
/// unknown token is reported with the offset at which it starts. Where a
/// long bracket is left open, the lexer is run on what stands before it: an
/// unknown token there is reported, else the bracket with the offset of its
/// `[`.
pub fn get_split_token(l: &[u8]) -> (res: Result<Vec<Token>, LexError>)
    ensures
        lex_view(res) == lex_outcome(l@, lua_tokens(lexable_part(l@))),
        res is Ok ==> lexable_part(l@) == l@ && well_placed(lua_tokens(l@), l@.len()),
        res matches Ok(tokens) ==> well_placed(token_views(tokens@), l@.len()),
{
    match lex(l) {
        Err(open) => {
            let before = tokenize(slice_subrange(l, 0, open));
            match split_tokens(before) {
                Ok(_) => Err(LexError { fault: Fault::OpenLongBracket, offset: open }),
                Err(offset) => Err(LexError { fault: Fault::UnknownToken, offset }),
            }
        },
        Ok(tokens) => {
            proof {
                lemma_significant_well_placed(lua_tokens(l@), l@.len());
            }
            match split_tokens(tokens) {
                Ok(kept) => Ok(kept),
                Err(offset) => Err(LexError { fault: Fault::UnknownToken, offset }),
            }
        },
    }
}

/// Whether the two sequences differ at index `i`: one of them has no token
/// there, or the two tokens differ in value.
pub open spec fn differs_at(ot: Seq<TokenView>, st: Seq<TokenView>, i: int) -> bool {
    i >= ot.len() || i >= st.len() || !same_value(ot[i], st[i])
}

/// The span of the original buffer that stands for index `i`: that of the
/// original's token at `i`; where the original has run out of tokens, that
/// of its last token; where it has none at all, the start of the buffer.
pub open spec fn anchor(ot: Seq<TokenView>, i: int) -> Span {
    if 0 <= i < ot.len() {
        ot[i].span
    } else if ot.len() > 0 {
        ot.last().span
    } else {
        Span { start: 0, end: 0 }
    }
}

/// The anchors of the indices below `n` at which the sequences differ.
pub open spec fn diff_spans_upto(ot: Seq<TokenView>, st: Seq<TokenView>, n: nat) -> Seq<Span>
    decreases n,
{
    if n == 0 {
        Seq::empty()
    } else if differs_at(ot, st, n - 1) {
        diff_spans_upto(ot, st, (n - 1) as nat).push(anchor(ot, n - 1))
    } else {
        diff_spans_upto(ot, st, (n - 1) as nat)
    }
}

/// The longer of two lengths.
pub open spec fn longer(a: nat, b: nat) -> nat {
    if a >= b {
        a
    } else {
        b
    }
}

/// One span of the original buffer for each index, up to the length of the
/// longer sequence, at which the two sequences differ.
pub open spec fn diff_spans(ot: Seq<TokenView>, st: Seq<TokenView>) -> Seq<Span> {
    diff_spans_upto(ot, st, longer(ot.len(), st.len()))
}

/// The sequences have the same length and, index by index, the same values.
pub open spec fn same_values(ot: Seq<TokenView>, st: Seq<TokenView>) -> bool {
    &&& ot.len() == st.len()
    &&& forall|i: int| 0 <= i < ot.len() ==> same_value(#[trigger] ot[i], st[i])
}

/// Compares the tokens of the original, `ot`, with those of the stripped
/// buffer, `st`, index by index.
pub fn compare_tokens(ot: &Vec<Token>, st: &Vec<Token>) -> (diffs: Vec<Span>)
    ensures
        diffs@ == diff_spans(token_views(ot@), token_views(st@)),
{
    let n = if ot.len() >= st.len() { ot.len() } else { st.len() };
    let mut diffs: Vec<Span> = Vec::new();
    let mut i: usize = 0;
    while i < n
        invariant
            i <= n,
            n == longer(ot@.len(), st@.len()),
            diffs@ == diff_spans_upto(token_views(ot@), token_views(st@), i as nat),
        decreases n - i,
    {
        if i < ot.len() {
            if i >= st.len() || !ot[i].same_value(&st[i]) {
                diffs.push(ot[i].span);
            }
        } else if ot.len() > 0 {
            diffs.push(ot[ot.len() - 1].span);
        } else {
            diffs.push(Span { start: 0, end: 0 });
        }
        i = i + 1;
    }
    diffs
}

/// What the comparison of two buffers yields, `o_tokens` and `s_tokens`
/// being the tokens of the parts that the lexer comes back from: the first
/// fault, the original's before the stripped buffer's, or the spans at
/// which their tokens differ.
pub open spec fn diff_outcome(
    orig: Seq<u8>,
    stripped: Seq<u8>,
    o_tokens: Seq<TokenView>,
    s_tokens: Seq<TokenView>,
) -> Result<Seq<Span>, DiffError> {
    match lex_outcome(orig, o_tokens) {
        Err(e) => Err(DiffError { buffer: Buffer::Original, fault: e.fault, offset: e.offset }),
        Ok(ot) => match lex_outcome(stripped, s_tokens) {
            Err(e) => Err(DiffError { buffer: Buffer::Stripped, fault: e.fault, offset: e.offset }),
            Ok(st) => Ok(diff_spans(ot, st)),
        },
    }
}

/// The view of what [`generate_diff2`] returns.
pub open spec fn diff_view(res: Result<Vec<Span>, DiffError>) -> Result<Seq<Span>, DiffError> {
    match res {
        Ok(diffs) => Ok(diffs@),
        Err(e) => Err(e),
    }
}

/// Compares the tokens of `o` and `s`, comments excluded.
pub fn generate_diff2(o: &[u8], s: &[u8]) -> (res: Result<Vec<Span>, DiffError>)
    ensures
        diff_view(res) == diff_outcome(
            o@,
            s@,
            lua_tokens(lexable_part(o@)),
            lua_tokens(lexable_part(s@)),
        ),
        res is Ok ==> well_placed(lua_tokens(o@), o@.len()),
        res matches Ok(diffs) ==> starts_ascend(diffs@),
{
    let ot = match get_split_token(o) {
        Ok(ot) => ot,
        Err(e) => {
            return Err(DiffError { buffer: Buffer::Original, fault: e.fault, offset: e.offset });
        },
    };
    let st = match get_split_token(s) {
        Ok(st) => st,
        Err(e) => {
            return Err(DiffError { buffer: Buffer::Stripped, fault: e.fault, offset: e.offset });
        },
    };
    proof {
        lemma_diff_spans_ascend(
            token_views(ot@),
            token_views(st@),
            o@.len(),
            longer(ot@.len(), st@.len()),
        );
    }
    Ok(compare_tokens(&ot, &st))
}

/// What the token comparison of two buffers reports: the first fault, or
/// the report on the spans at which their tokens differ.
pub open spec fn token_diff_outcome(
    orig: Seq<u8>,
    stripped: Seq<u8>,
    o_tokens: Seq<TokenView>,
    s_tokens: Seq<TokenView>,
    o_path: Seq<char>,
    s_path: Seq<char>,
) -> Result<Option<Seq<char>>, DiffError> {
    match diff_outcome(orig, stripped, o_tokens, s_tokens) {
        Err(e) => Err(e),
        Ok(diffs) => Ok(token_report(orig, stripped, diffs, o_path, s_path)),
    }
}

/// The view of what [`generate_diff_from_tokens`] returns.
pub open spec fn outcome_view(res: Result<Option<String>, DiffError>) -> Result<
    Option<Seq<char>>,
    DiffError,
> {
    match res {
        Ok(report) => Ok(optional_text(report)),
        Err(e) => Err(e),
    }
}

/// Compares the two buffers token by token, comments and whitespace set
/// aside, and reports the lines of the original in which a difference
/// starts. `Ok(None)` says that nothing but comments differs.
pub fn generate_diff_from_tokens(
    orig: &[u8],
    stripped: &[u8],
    o_path: &str,
    s_path: &str,
) -> (res: Result<Option<String>, DiffError>)
    ensures
        outcome_view(res) == token_diff_outcome(
            orig@,
            stripped@,
            lua_tokens(lexable_part(orig@)),
            lua_tokens(lexable_part(stripped@)),
            o_path@,
            s_path@,
        ),
        res is Ok ==> well_placed(lua_tokens(orig@), orig@.len()),
{
    match generate_diff2(orig, stripped) {
        Err(e) => Err(e),
        Ok(diffs) => {
            if diffs.len() == 0 {
                proof {
                    lemma_no_diffs_no_report(
                        orig@,
                        stripped@,
                        diffs@,
                        o_path@,
                        s_path@,
                        line_count(orig@),
                    );
                }
                return Ok(None);
            }
            Ok(render_token_diff(orig, stripped, &diffs, o_path, s_path))
        },
    }
}

/// Both buffers lex without fault, and their tokens, comments set aside,
/// have the same values in the same order.
pub open spec fn same_significant_tokens(
    orig: Seq<u8>,
    stripped: Seq<u8>,
    o_tokens: Seq<TokenView>,
    s_tokens: Seq<TokenView>,
) -> bool {
    match (lex_outcome(orig, o_tokens), lex_outcome(stripped, s_tokens)) {
        (Ok(ot), Ok(st)) => same_values(ot, st),
        _ => false,
    }
}

/// The index among `tokens` of the token that is kept as number `i`.
pub open spec fn kept_index(tokens: Seq<TokenView>, i: int) -> int
    decreases tokens.len(),
{
    if tokens.len() == 0 {
        0
    } else if tokens.last().kind != TokenKind::Comment && i == significant(
        tokens.drop_last(),
    ).len() {
        tokens.len() - 1
    } else {
        kept_index(tokens.drop_last(), i)
    }
}

/// Every token that is kept is one of the tokens, and the tokens that are
/// kept stand in the order in which they stood.
pub proof fn lemma_kept_index(tokens: Seq<TokenView>, i: int, j: int)
    requires
        0 <= i <= j < significant(tokens).len(),
    ensures
        0 <= kept_index(tokens, i) <= kept_index(tokens, j) < tokens.len(),
        i < j ==> kept_index(tokens, i) < kept_index(tokens, j),
        tokens[kept_index(tokens, i)] == significant(tokens)[i],
        tokens[kept_index(tokens, j)] == significant(tokens)[j],
    decreases tokens.len(),
{
    let rest = tokens.drop_last();
    if tokens.last().kind != TokenKind::Comment && j == significant(rest).len() {
        if i < j {
            lemma_kept_index(rest, i, i);
        }
    } else {
        lemma_kept_index(rest, i, j);
    }
}

/// Tokens that are well placed still are when the comments are gone.
pub proof fn lemma_significant_well_placed(tokens: Seq<TokenView>, len: nat)
    requires
        well_placed(tokens, len),
    ensures
        well_placed(significant(tokens), len),
{
    let kept = significant(tokens);
    assert forall|i: int| 0 <= i < kept.len() implies (#[trigger] kept[i]).span.start
        < kept[i].span.end <= len by {
        lemma_kept_index(tokens, i, i);
        let k = kept_index(tokens, i);
        assert(tokens[k].span.start < tokens[k].span.end <= len);
    }
    assert forall|i: int, j: int| 0 <= i < j < kept.len() implies (#[trigger] kept[i]).span.end <= (
    #[trigger] kept[j]).span.start by {
        lemma_kept_index(tokens, i, j);
        let a = kept_index(tokens, i);
        let b = kept_index(tokens, j);
        assert(tokens[a].span.end <= tokens[b].span.start);
    }
}

/// The starts of the spans never decrease.
pub open spec fn starts_ascend(spans: Seq<Span>) -> bool {
    forall|a: int, b: int|
        0 <= a < b < spans.len() ==> (#[trigger] spans[a]).start <= (#[trigger] spans[b]).start
}

/// Each span ends before the next one starts, and all lie within `len`
/// bytes.
pub open spec fn spans_disjoint(spans: Seq<Span>, len: nat) -> bool {
    &&& forall|a: int|
        0 <= a < spans.len() ==> (#[trigger] spans[a]).start < spans[a].end <= len
    &&& forall|a: int, b: int|
        0 <= a < b < spans.len() ==> (#[trigger] spans[a]).end <= (#[trigger] spans[b]).start
}

/// The anchor of a later index starts no earlier.
pub proof fn lemma_anchor_ascends(ot: Seq<TokenView>, len: nat, i: int, j: int)
    requires
        well_placed(ot, len),
        0 <= i <= j,
    ensures
        anchor(ot, i).start <= anchor(ot, j).start,
{
    if ot.len() > 0 {
        let last = ot.len() - 1;
        if i < ot.len() && i < j {
            if j < ot.len() {
                assert(ot[i].span.end <= ot[j].span.start);
            } else if i < last {
                assert(ot[i].span.end <= ot[last].span.start);
            }
            assert(ot[i].span.start < ot[i].span.end);
        }
    }
}

/// The spans recorded below `n` start no later than the anchor of `n - 1`,
/// and their starts never decrease.
pub proof fn lemma_diff_spans_ascend(ot: Seq<TokenView>, st: Seq<TokenView>, len: nat, n: nat)
    requires
        well_placed(ot, len),
    ensures
        starts_ascend(diff_spans_upto(ot, st, n)),
        forall|k: int|
            0 <= k < diff_spans_upto(ot, st, n).len() ==> (#[trigger] diff_spans_upto(
                ot,
                st,
                n,
            )[k]).start <= anchor(ot, n - 1).start,
    decreases n,
{
    if n > 0 {
        let m = (n - 1) as nat;
        lemma_diff_spans_ascend(ot, st, len, m);
        let before = diff_spans_upto(ot, st, m);
        let now = diff_spans_upto(ot, st, n);
        if m > 0 {
            lemma_anchor_ascends(ot, len, m - 1, m as int);
        }
        assert forall|k: int| 0 <= k < now.len() implies (#[trigger] now[k]).start <= anchor(
            ot,
            n - 1,
        ).start by {
            if k < before.len() {
                assert(before[k].start <= anchor(ot, m - 1).start);
            }
        }
        assert forall|a: int, b: int| 0 <= a < b < now.len() implies (#[trigger] now[a]).start <= (
        #[trigger] now[b]).start by {
            assert(before[a].start <= anchor(ot, m - 1).start);
            if b < before.len() {
                assert(before[a].start <= before[b].start);
            }
        }
    }
}

/// Where the stripped buffer has no more tokens than the original, every
/// span that is recorded is the span of a token of the original: the spans
/// are disjoint, stand in the order of the buffer, and lie within it.
pub proof fn law_spans_of_original(ot: Seq<TokenView>, st: Seq<TokenView>, len: nat)
    requires
        well_placed(ot, len),
        st.len() <= ot.len(),
    ensures
        spans_disjoint(diff_spans(ot, st), len),
{
    lemma_diff_spans_disjoint(ot, st, len, ot.len());
}

proof fn lemma_diff_spans_disjoint(ot: Seq<TokenView>, st: Seq<TokenView>, len: nat, n: nat)
    requires
        well_placed(ot, len),
        n <= ot.len(),
    ensures
        spans_disjoint(diff_spans_upto(ot, st, n), len),
        forall|k: int|
            0 <= k < diff_spans_upto(ot, st, n).len() && n > 0 ==> (#[trigger] diff_spans_upto(
                ot,
                st,
                n,
            )[k]).end <= ot[n - 1].span.end,
    decreases n,
{
    if n > 0 {
        let m = (n - 1) as nat;
        lemma_diff_spans_disjoint(ot, st, len, m);
        let before = diff_spans_upto(ot, st, m);
        let now = diff_spans_upto(ot, st, n);
        assert(ot[m as int].span.start < ot[m as int].span.end <= len);
        if m > 0 {
            assert(ot[m - 1].span.end <= ot[m as int].span.start);
        }
        assert forall|k: int| 0 <= k < now.len() implies (#[trigger] now[k]).end <= ot[n
            - 1].span.end by {
            if k < before.len() {
                assert(before[k].end <= ot[m - 1].span.end);
            }
        }
        assert forall|a: int| 0 <= a < now.len() implies (#[trigger] now[a]).start < now[a].end
            <= len by {
            if a < before.len() {
                assert(before[a].start < before[a].end);
            }
        }
        assert forall|a: int, b: int| 0 <= a < b < now.len() implies (#[trigger] now[a]).end <= (
        #[trigger] now[b]).start by {
            assert(before[a].end <= ot[m - 1].span.end);
            if b < before.len() {
                assert(before[a].end <= before[b].start);
            }
        }
    }
}

/// No index below `n` differs exactly when no span is recorded below `n`.
pub proof fn lemma_diff_spans_empty(ot: Seq<TokenView>, st: Seq<TokenView>, n: nat)
    ensures
        diff_spans_upto(ot, st, n).len() == 0 <==> forall|i: int|
            0 <= i < n ==> !differs_at(ot, st, i),
    decreases n,
{
    if n > 0 {
        lemma_diff_spans_empty(ot, st, (n - 1) as nat);
        if diff_spans_upto(ot, st, n).len() == 0 {
            assert forall|i: int| 0 <= i < n implies !differs_at(ot, st, i) by {
                if i == n - 1 {
                } else {
                    assert(0 <= i < n - 1);
                }
            }
        }
    }
}

/// An index below `n` that differs has its anchor among the spans.
pub proof fn lemma_diff_span_recorded(ot: Seq<TokenView>, st: Seq<TokenView>, n: nat, i: int) -> (k:
    int)
    requires
        0 <= i < n,
        differs_at(ot, st, i),
    ensures
        0 <= k < diff_spans_upto(ot, st, n).len(),
        diff_spans_upto(ot, st, n)[k] == anchor(ot, i),
    decreases n,
{
    if i == n - 1 {
        diff_spans_upto(ot, st, n).len() - 1
    } else {
        lemma_diff_span_recorded(ot, st, (n - 1) as nat, i)
    }
}

/// The sequences have the same values exactly when no span is recorded.
pub proof fn law_no_span_iff_same_values(ot: Seq<TokenView>, st: Seq<TokenView>)
    ensures
        diff_spans(ot, st).len() == 0 <==> same_values(ot, st),
{
    let n = longer(ot.len(), st.len());
    lemma_diff_spans_empty(ot, st, n);
    if same_values(ot, st) {
        assert forall|i: int| 0 <= i < n implies !differs_at(ot, st, i) by {
            assert(same_value(ot[i], st[i]));
        }
    }
    if diff_spans(ot, st).len() == 0 {
        if ot.len() != st.len() {
            assert(differs_at(ot, st, n - 1));
        }
        assert forall|i: int| 0 <= i < ot.len() implies same_value(#[trigger] ot[i], st[i]) by {
            assert(!differs_at(ot, st, i));
        }
    }
}

/// Where the tokens of the original lie in its buffer, the report is empty
/// exactly when the two token sequences have the same values: a difference
/// always shows as an entry, and an entry always stands for a difference.
pub proof fn law_report_iff_tokens_differ(
    orig: Seq<u8>,
    stripped: Seq<u8>,
    ot: Seq<TokenView>,
    st: Seq<TokenView>,
    o_path: Seq<char>,
    s_path: Seq<char>,
)
    requires
        well_placed(ot, orig.len()),
    ensures
        token_report(orig, stripped, diff_spans(ot, st), o_path, s_path) is None <==> same_values(
            ot,
            st,
        ),
{
    let diffs = diff_spans(ot, st);
    let n = longer(ot.len(), st.len());
    law_no_span_iff_same_values(ot, st);
    if same_values(ot, st) {
        lemma_no_diffs_no_report(orig, stripped, diffs, o_path, s_path, line_count(orig));
    } else {
        lemma_diff_spans_empty(ot, st, n);
        reveal_strlit("line number ");
        if orig.len() > 0 {
            let i = choose|i: int| 0 <= i < n && differs_at(ot, st, i);
            let k = lemma_diff_span_recorded(ot, st, n, i);
            let start = anchor(ot, i).start as int;
            if ot.len() > 0 {
                assert(ot.last().span.start < ot.last().span.end);
                if i < ot.len() {
                    assert(ot[i].span.start < ot[i].span.end);
                }
            }
            assert(0 <= start < orig.len());
            let m = lemma_offset_has_line(orig, start);
            assert(line_start(orig, m) <= diffs[k].start < line_start(orig, m + 1));
            assert(hit(diffs, line_start(orig, m), line_start(orig, m + 1)));
            lemma_report_holds_entry(orig, stripped, diffs, o_path, s_path, line_count(orig), m);
        }
    }
}

/// The whole comparison, from bytes to report: where the tokens of the
/// original lie in its buffer, the outcome is "no difference" exactly when
/// both buffers lex without fault and their tokens, comments set aside,
/// have the same values.
pub proof fn law_outcome_iff_tokens_differ(
    orig: Seq<u8>,
    stripped: Seq<u8>,
    o_tokens: Seq<TokenView>,
    s_tokens: Seq<TokenView>,
    o_path: Seq<char>,
    s_path: Seq<char>,
)
    requires
        well_placed(o_tokens, orig.len()),
    ensures
        (token_diff_outcome(orig, stripped, o_tokens, s_tokens, o_path, s_path) matches Ok(None))
            <==> same_significant_tokens(orig, stripped, o_tokens, s_tokens),
{
    match (lex_outcome(orig, o_tokens), lex_outcome(stripped, s_tokens)) {
        (Ok(ot), Ok(st)) => {
            lemma_significant_well_placed(o_tokens, orig.len());
            law_report_iff_tokens_differ(orig, stripped, ot, st, o_path, s_path);
        },
        _ => {},
    }
}

/// An unknown token is never passed over: whenever the tokens of a buffer
/// hold one, the outcome is a failure, and it names the first of them.
pub proof fn law_unknown_token_is_fatal(tokens: Seq<TokenView>, i: int)
    requires
        0 <= i < tokens.len(),
        tokens[i].kind == TokenKind::Unknown,
    ensures
        split_outcome(tokens) is Err,
        0 <= first_unknown_from(tokens, 0) <= i,
        tokens[first_unknown_from(tokens, 0)].kind == TokenKind::Unknown,
        split_outcome(tokens) == Err::<Seq<TokenView>, usize>(
            tokens[first_unknown_from(tokens, 0)].span.start,
        ),
{
    lemma_first_unknown(tokens, 0, i);
}

proof fn lemma_first_unknown(tokens: Seq<TokenView>, from: int, i: int)
    requires
        0 <= from <= i < tokens.len(),
        tokens[i].kind == TokenKind::Unknown,
    ensures
        from <= first_unknown_from(tokens, from) <= i,
        tokens[first_unknown_from(tokens, from)].kind == TokenKind::Unknown,
    decreases i - from,
{
    if tokens[from].kind != TokenKind::Unknown {
        lemma_first_unknown(tokens, from + 1, i);
    }
}

} // verus!
