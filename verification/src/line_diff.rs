//! The line comparison of the verbose mode: both buffers are read as text
//! and aligned line by line; the lines found on one side only are listed.

use vstd::prelude::*;
use crate::text::{lossy_text, optional_text, push_text, utf8_lossy};

verus! {

/// One step of a line alignment.
#[derive(Clone, Debug, PartialEq, Eq)]
pub enum LineChange {
    /// A line that only the left text has.
    Left(String),
    /// A line that both texts have: the left one and the right one.
    Both(String, String),
    /// A line that only the right text has.
    Right(String),
}

/// The mathematical value of a [`LineChange`].
pub enum LineChangeView {
    Left(Seq<char>),
    Both(Seq<char>, Seq<char>),
    Right(Seq<char>),
}

impl View for LineChange {
    type V = LineChangeView;

    open spec fn view(&self) -> LineChangeView {
        match self {
            LineChange::Left(l) => LineChangeView::Left(l@),
            LineChange::Both(l, r) => LineChangeView::Both(l@, r@),
            LineChange::Right(r) => LineChangeView::Right(r@),
        }
    }
}

/// The views of a sequence of changes, element by element.
pub open spec fn change_views(changes: Seq<LineChange>) -> Seq<LineChangeView> {
    Seq::new(changes.len(), |i: int| changes[i]@)
}

/// The alignment that `diff::lines` computes of two texts.
pub uninterp spec fn line_changes(left: Seq<char>, right: Seq<char>) -> Seq<LineChangeView>;

/// The table of the alignment has a cell of four bytes for each pair of a
/// line of the one text and a line of the other, and one row and one column
/// more; a text has no more lines than characters. This is the condition
/// under which the table can be allocated.
pub open spec fn table_fits(left_len: nat, right_len: nat) -> bool {
    (left_len + 1) * (right_len + 1) * 4 <= isize::MAX
}

/// `diff::lines`: the alignment of the lines of `left` with those of
/// `right` by a longest common subsequence, each step turned into a
/// [`LineChange`] with the same lines.
#[verifier::external_body]
fn diff_lines(left: &str, right: &str) -> (changes: Vec<LineChange>)
    requires
        table_fits(left@.len(), right@.len()),
    ensures
        change_views(changes@) == line_changes(left@, right@),
{
    let to_change = |c: diff::Result<&str>| match c {
        diff::Result::Left(l) => LineChange::Left(l.to_string()),
        diff::Result::Both(l, r) => LineChange::Both(l.to_string(), r.to_string()),
        diff::Result::Right(r) => LineChange::Right(r.to_string()),
    };
    diff::lines(left, right).into_iter().map(to_change).collect()
}

/// The line that one change adds to the listing: `- ` and the line for one
/// that only the original has, `+ ` and the line for one that only the
/// stripped text has, nothing for a common line.
pub open spec fn change_text(change: LineChangeView) -> Seq<char> {
    match change {
        LineChangeView::Left(l) => "- "@ + l + "\n"@,
        LineChangeView::Right(r) => "+ "@ + r + "\n"@,
        LineChangeView::Both(_, _) => Seq::empty(),
    }
}

/// The listing of the first `n` changes.
pub open spec fn listing_upto(changes: Seq<LineChangeView>, n: nat) -> Seq<char>
    decreases n,
{
    if n == 0 {
        Seq::empty()
    } else {
        listing_upto(changes, (n - 1) as nat) + change_text(changes[n - 1])
    }
}

/// The verbose report on an alignment: `None` where no line stands on one
/// side only, else a header with the two paths and the listing.
pub open spec fn line_report(
    changes: Seq<LineChangeView>,
    o_path: Seq<char>,
    s_path: Seq<char>,
) -> Option<Seq<char>> {
    let listing = listing_upto(changes, changes.len());
    if listing.len() == 0 {
        None
    } else {
        Some("--- "@ + o_path + "\n+++ "@ + s_path + "\n"@ + listing)
    }
}

/// Writes the verbose report on the alignment `changes`.
pub fn render_line_diff(changes: &Vec<LineChange>, o_path: &str, s_path: &str) -> (report: Option<
    String,
>)
    ensures
        optional_text(report) == line_report(change_views(changes@), o_path@, s_path@),
{
    let mut listing = String::new();
    let mut i: usize = 0;
    while i < changes.len()
        invariant
            i <= changes.len(),
            listing@ == listing_upto(change_views(changes@), i as nat),
        decreases changes.len() - i,
    {
        let ghost before = listing@;
        match &changes[i] {
            LineChange::Left(l) => {
                push_text(&mut listing, "- ");
                push_text(&mut listing, l.as_str());
                push_text(&mut listing, "\n");
                assert(listing@ =~= before + ("- "@ + l@ + "\n"@));
            },
            LineChange::Right(r) => {
                push_text(&mut listing, "+ ");
                push_text(&mut listing, r.as_str());
                push_text(&mut listing, "\n");
                assert(listing@ =~= before + ("+ "@ + r@ + "\n"@));
            },
            LineChange::Both(_, _) => {
                assert(listing@ =~= before + Seq::<char>::empty());
            },
        }
        i = i + 1;
    }
    if listing.as_str().is_empty() {
        return None;
    }
    let mut report = String::new();
    push_text(&mut report, "--- ");
    push_text(&mut report, o_path);
    push_text(&mut report, "\n+++ ");
    push_text(&mut report, s_path);
    push_text(&mut report, "\n");
    push_text(&mut report, listing.as_str());
    assert(report@ =~= "--- "@ + o_path@ + "\n+++ "@ + s_path@ + "\n"@ + listing@);
    Some(report)
}

/// Whether the table for buffers of `a` and of `b` bytes can be allocated.
pub fn fits_table(a: usize, b: usize) -> (fits: bool)
    ensures
        fits == table_fits(a as nat, b as nat),
{
    let (rows, columns) = match (a.checked_add(1), b.checked_add(1)) {
        (Some(rows), Some(columns)) => (rows, columns),
        _ => {
            assert(!table_fits(a as nat, b as nat)) by (nonlinear_arith)
                requires
                    a + 1 > usize::MAX || b + 1 > usize::MAX,
                    isize::MAX < usize::MAX,
            ;
            return false;
        },
    };
    let cells = match rows.checked_mul(columns) {
        Some(cells) => cells,
        None => {
            assert(!table_fits(a as nat, b as nat)) by (nonlinear_arith)
                requires
                    (a + 1) * (b + 1) > usize::MAX,
                    isize::MAX < usize::MAX,
            ;
            return false;
        },
    };
    match cells.checked_mul(4) {
        Some(bytes) => bytes <= isize::MAX as usize,
        None => false,
    }
}

/// The verbose diff of two buffers, each read as text with its invalid
/// bytes replaced: the lines that stand on one side only, under a header
/// with the two paths; `None` where there is no such line.
pub fn generate_line_diff(orig: &[u8], stripped: &[u8], o_path: &str, s_path: &str) -> (report:
    Option<String>)
    requires
        table_fits(orig@.len(), stripped@.len()),
    ensures
        optional_text(report) == line_report(
            line_changes(lossy_text(orig@), lossy_text(stripped@)),
            o_path@,
            s_path@,
        ),
{
    let o = utf8_lossy(orig);
    let s = utf8_lossy(stripped);
    assert(table_fits(o@.len(), s@.len())) by (nonlinear_arith)
        requires
            table_fits(orig@.len(), stripped@.len()),
            o@.len() <= orig@.len(),
            s@.len() <= stripped@.len(),
    ;
    let changes = diff_lines(o.as_str(), s.as_str());
    render_line_diff(&changes, o_path, s_path)
}

/// The change is a line that both texts have.
pub open spec fn is_common(change: LineChangeView) -> bool {
    change is Both
}

/// There is no report exactly when every line is common to both texts.
pub proof fn law_no_report_iff_all_common(
    changes: Seq<LineChangeView>,
    o_path: Seq<char>,
    s_path: Seq<char>,
)
    ensures
        line_report(changes, o_path, s_path) is None <==> forall|i: int|
            0 <= i < changes.len() ==> is_common(#[trigger] changes[i]),
{
    lemma_listing_empty(changes, changes.len());
}

proof fn lemma_listing_empty(changes: Seq<LineChangeView>, n: nat)
    requires
        n <= changes.len(),
    ensures
        listing_upto(changes, n).len() == 0 <==> forall|i: int|
            0 <= i < n ==> is_common(#[trigger] changes[i]),
    decreases n,
{
    reveal_strlit("- ");
    reveal_strlit("+ ");
    if n > 0 {
        lemma_listing_empty(changes, (n - 1) as nat);
        if listing_upto(changes, n).len() == 0 {
            assert forall|i: int| 0 <= i < n implies is_common(#[trigger] changes[i]) by {
                if i < n - 1 {
                } else {
                    assert(change_text(changes[n - 1]).len() == 0);
                }
            }
        } else if listing_upto(changes, (n - 1) as nat).len() == 0 {
            assert(!is_common(changes[n - 1]));
        }
    }
}

} // verus!
