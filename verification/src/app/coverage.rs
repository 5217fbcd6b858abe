//! What the rows of a diff show: every line, once.
use vstd::prelude::*;

use crate::app::motion;
use crate::app::rows;
use crate::git::diff;
use crate::order;
use crate::app::pairing;
use crate::app::rows::DisplayRow;
use crate::git::model::{FileDiffV, LineV};

verus! {

broadcast use vstd::seq_lib::group_seq_properties;

/// The hunks lie within the lines, one after the other, and hold all changes.
pub open spec fn laid_out(doc: FileDiffV) -> bool {
    &&& pairing::hunks_within(doc.lines, doc.hunks)
    &&& forall|k: int, l: int|
        0 <= k < l < doc.hunks.len() ==> (#[trigger] doc.hunks[k]).end <= (
        #[trigger] doc.hunks[l]).start
    &&& forall|j: int|
        0 <= j < doc.lines.len() && (#[trigger] doc.lines[j]).is_change() ==> exists|k: int|
            0 <= k < doc.hunks.len() && #[trigger] diff::in_hunk(doc.hunks[k], j)
}

// ---- Rows stay within the lines ----

proof fn lemma_within_add(a: Seq<DisplayRow>, b: Seq<DisplayRow>, n: nat)
    requires
        motion::rows_within(a, n),
        motion::rows_within(b, n),
    ensures
        motion::rows_within(a + b, n),
{
}

proof fn lemma_gap_within(expanded: Set<usize>, side: bool, start: int, end: int, n: nat)
    requires
        0 <= start,
        end <= n <= usize::MAX,
    ensures
        motion::rows_within(rows::gap_rows_v(expanded, side, start, end), n),
{
}

proof fn lemma_side_within(lines: Seq<LineV>, i: int, end: int)
    requires
        0 <= i,
        end <= lines.len() <= usize::MAX,
    ensures
        motion::rows_within(rows::side_rows_v(lines, i, end), lines.len()),
    decreases end - i,
{
    if i < end {
        if !lines[i].is_change() {
            lemma_side_within(lines, i + 1, end);
            lemma_within_add(
                seq![rows::context_row_v(true, i)],
                rows::side_rows_v(lines, i + 1, end),
                lines.len(),
            );
        } else {
            pairing::lemma_change_end(lines, i, end);
            let e = pairing::change_end(lines, i, end);
            lemma_side_within(lines, e, end);
            pairing::lemma_run_rows_within(lines, i, e);
            let cells = pairing::run_rows_v(lines, i, e);
            assert forall|k: int| 0 <= k < rows::side_cells_v(cells).len() implies motion::row_within(
                #[trigger] rows::side_cells_v(cells)[k],
                lines.len(),
            ) by {
                assert(rows::side_cells_v(cells)[k] == (DisplayRow::SideLine {
                    left: cells[k].0,
                    right: cells[k].1,
                }));
            }
            lemma_within_add(rows::side_cells_v(cells), rows::side_rows_v(lines, e, end), lines.len());
        }
    }
}

proof fn lemma_upto_within(doc: FileDiffV, expanded: Set<usize>, side: bool, k: nat)
    requires
        pairing::hunks_within(doc.lines, doc.hunks),
        doc.lines.len() <= usize::MAX,
        k <= doc.hunks.len(),
    ensures
        motion::rows_within(rows::rows_upto(doc, expanded, side, k), doc.lines.len()),
        0 <= rows::gap_start(doc.hunks, k as int) <= doc.lines.len(),
    decreases k,
{
    if k > 0 {
        let n = doc.lines.len();
        let h = doc.hunks[k - 1];
        lemma_upto_within(doc, expanded, side, (k - 1) as nat);
        let before = rows::rows_upto(doc, expanded, side, (k - 1) as nat);
        let start = rows::gap_start(doc.hunks, k - 1);
        lemma_gap_within(expanded, side, start, h.start, n);
        let gap = rows::gap_rows_v(expanded, side, start, h.start);
        lemma_within_add(before, gap, n);
        let with_sep = (before + gap).push(DisplayRow::HunkSep { hunk: (k - 1) as usize });
        assert(motion::rows_within(with_sep, n));
        if side {
            lemma_side_within(doc.lines, h.start, h.end);
        }
        lemma_within_add(with_sep, rows::hunk_rows_v(doc.lines, side, h.start, h.end), n);
    }
}

/// The rows of a diff show lines of the diff.
pub proof fn lemma_rows_within(doc: FileDiffV, expanded: Set<usize>, side: bool)
    requires
        pairing::hunks_within(doc.lines, doc.hunks),
        doc.lines.len() <= usize::MAX,
    ensures
        motion::rows_within(rows::rows_v(doc, expanded, side), doc.lines.len()),
{
    let n = doc.hunks.len();
    lemma_upto_within(doc, expanded, side, n);
    let start = rows::gap_start(doc.hunks, n as int);
    lemma_gap_within(expanded, side, start, doc.lines.len() as int, doc.lines.len());
    lemma_within_add(
        rows::rows_upto(doc, expanded, side, n),
        rows::gap_rows_v(expanded, side, start, doc.lines.len() as int),
        doc.lines.len(),
    );
}

/// Every separator belongs to a hunk.
pub open spec fn seps_within(rows: Seq<DisplayRow>, n: nat) -> bool {
    forall|k: int|
        0 <= k < rows.len() ==> ((#[trigger] rows[k]) matches DisplayRow::HunkSep { hunk } ==> hunk
            < n)
}

proof fn lemma_no_seps(lines: Seq<LineV>, i: int, end: int)
    ensures
        seps_within(rows::side_rows_v(lines, i, end), 0),
    decreases end - i,
{
    if i < end {
        if !lines[i].is_change() {
            lemma_no_seps(lines, i + 1, end);
        } else {
            pairing::lemma_change_end(lines, i, end);
            lemma_no_seps(lines, pairing::change_end(lines, i, end), end);
        }
    }
}

proof fn lemma_upto_seps(doc: FileDiffV, expanded: Set<usize>, side: bool, k: nat)
    requires
        k <= doc.hunks.len(),
    ensures
        seps_within(rows::rows_upto(doc, expanded, side, k), doc.hunks.len()),
    decreases k,
{
    if k > 0 {
        let h = doc.hunks[k - 1];
        lemma_upto_seps(doc, expanded, side, (k - 1) as nat);
        lemma_no_seps(doc.lines, h.start, h.end);
    }
}

/// The separators among the rows of a diff belong to its hunks.
pub proof fn lemma_seps_within(doc: FileDiffV, expanded: Set<usize>, side: bool)
    ensures
        seps_within(rows::rows_v(doc, expanded, side), doc.hunks.len()),
{
    lemma_upto_seps(doc, expanded, side, doc.hunks.len());
}

// ---- Rows show every line ----

/// The lines from one index to another.
pub open spec fn range_v(start: int, end: int) -> Seq<usize> {
    Seq::new(
        if start < end {
            (end - start) as nat
        } else {
            0
        },
        |i: int| (start + i) as usize,
    )
}

/// A line as a list.
pub open spec fn one_v(line: Option<usize>) -> Seq<usize> {
    match line {
        Some(i) => seq![i],
        None => Seq::empty(),
    }
}

/// The lines that a row has on the old side, those that it folds among them.
pub open spec fn row_lefts(row: DisplayRow) -> Seq<usize> {
    match row {
        DisplayRow::HunkSep { hunk } => Seq::empty(),
        DisplayRow::Fold { start, hidden } => range_v(start as int, start + hidden),
        DisplayRow::Line { idx } => seq![idx],
        DisplayRow::SideLine { left, right } => one_v(left),
    }
}

/// The lines that a row has on the new side, those that it folds among them.
pub open spec fn row_rights(row: DisplayRow) -> Seq<usize> {
    match row {
        DisplayRow::HunkSep { hunk } => Seq::empty(),
        DisplayRow::Fold { start, hidden } => range_v(start as int, start + hidden),
        DisplayRow::Line { idx } => seq![idx],
        DisplayRow::SideLine { left, right } => one_v(right),
    }
}

/// The lines on the old side of some rows, from the top down.
pub open spec fn lefts(rows: Seq<DisplayRow>) -> Seq<usize>
    decreases rows.len(),
{
    if rows.len() == 0 {
        Seq::empty()
    } else {
        lefts(rows.drop_last()) + row_lefts(rows.last())
    }
}

/// The lines on the new side of some rows, from the top down.
pub open spec fn rights(rows: Seq<DisplayRow>) -> Seq<usize>
    decreases rows.len(),
{
    if rows.len() == 0 {
        Seq::empty()
    } else {
        rights(rows.drop_last()) + row_rights(rows.last())
    }
}

proof fn lemma_lefts_add(a: Seq<DisplayRow>, b: Seq<DisplayRow>)
    ensures
        lefts(a + b) == lefts(a) + lefts(b),
    decreases b.len(),
{
    if b.len() == 0 {
        assert(a + b =~= a);
        assert(lefts(a + b) =~= lefts(a) + lefts(b));
    } else {
        lemma_lefts_add(a, b.drop_last());
        assert((a + b).drop_last() =~= a + b.drop_last());
        assert((a + b).last() == b.last());
        assert(lefts(a + b) =~= lefts(a) + lefts(b));
    }
}

proof fn lemma_rights_add(a: Seq<DisplayRow>, b: Seq<DisplayRow>)
    ensures
        rights(a + b) == rights(a) + rights(b),
    decreases b.len(),
{
    if b.len() == 0 {
        assert(a + b =~= a);
        assert(rights(a + b) =~= rights(a) + rights(b));
    } else {
        lemma_rights_add(a, b.drop_last());
        assert((a + b).drop_last() =~= a + b.drop_last());
        assert((a + b).last() == b.last());
        assert(rights(a + b) =~= rights(a) + rights(b));
    }
}

proof fn lemma_lefts_push(a: Seq<DisplayRow>, row: DisplayRow)
    ensures
        lefts(a.push(row)) == lefts(a) + row_lefts(row),
{
    assert(a.push(row).drop_last() =~= a);
}

proof fn lemma_rights_push(a: Seq<DisplayRow>, row: DisplayRow)
    ensures
        rights(a.push(row)) == rights(a) + row_rights(row),
{
    assert(a.push(row).drop_last() =~= a);
}

/// Rows of one line each show those lines.
proof fn lemma_context_rows(side: bool, start: int, k: nat)
    requires
        0 <= start,
        start + k <= usize::MAX,
    ensures
        ({
            let rows = Seq::new(k, |i: int| rows::context_row_v(side, start + i));
            &&& lefts(rows) == range_v(start, start + k)
            &&& rights(rows) == range_v(start, start + k)
        }),
    decreases k,
{
    let rows = Seq::new(k, |i: int| rows::context_row_v(side, start + i));
    if k > 0 {
        lemma_context_rows(side, start, (k - 1) as nat);
        let before = Seq::new((k - 1) as nat, |i: int| rows::context_row_v(side, start + i));
        assert(rows.drop_last() =~= before);
        assert(range_v(start, start + k) =~= range_v(start, start + k - 1) + seq![
            (start + k - 1) as usize,
        ]);
    } else {
        assert(range_v(start, start + k) =~= Seq::empty());
    }
}

/// The rows of a range of unchanged lines show it, or fold it.
proof fn lemma_gap_rows(expanded: Set<usize>, side: bool, start: int, end: int)
    requires
        0 <= start,
        end <= usize::MAX,
    ensures
        lefts(rows::gap_rows_v(expanded, side, start, end)) == range_v(start, end),
        rights(rows::gap_rows_v(expanded, side, start, end)) == range_v(start, end),
{
    let rows = rows::gap_rows_v(expanded, side, start, end);
    if end <= start {
        assert(range_v(start, end) =~= Seq::empty());
    } else if expanded.contains(start as usize) {
        lemma_context_rows(side, start, (end - start) as nat);
    } else {
        reveal_with_fuel(lefts, 2);
        reveal_with_fuel(rights, 2);
        assert(rows.drop_last() =~= Seq::empty());
        assert(lefts(rows) =~= range_v(start, end));
        assert(rights(rows) =~= range_v(start, end));
    }
}

/// In one column, the rows up to hunk `k` show the lines up to its end.
proof fn lemma_unified_upto(doc: FileDiffV, expanded: Set<usize>, k: nat)
    requires
        laid_out(doc),
        doc.lines.len() <= usize::MAX,
        k <= doc.hunks.len(),
    ensures
        lefts(rows::rows_upto(doc, expanded, false, k)) == range_v(0, rows::gap_start(doc.hunks, k as int)),
        0 <= rows::gap_start(doc.hunks, k as int) <= doc.lines.len(),
    decreases k,
{
    if k == 0 {
        assert(range_v(0, 0) =~= Seq::empty());
    } else {
        let h = doc.hunks[k - 1];
        lemma_unified_upto(doc, expanded, (k - 1) as nat);
        let before = rows::rows_upto(doc, expanded, false, (k - 1) as nat);
        let start = rows::gap_start(doc.hunks, k - 1);
        let gap = rows::gap_rows_v(expanded, false, start, h.start);
        lemma_gap_rows(expanded, false, start, h.start);
        lemma_lefts_add(before, gap);
        let sep = DisplayRow::HunkSep { hunk: (k - 1) as usize };
        lemma_lefts_push(before + gap, sep);
        let body = rows::hunk_rows_v(doc.lines, false, h.start, h.end);
        lemma_context_rows(false, h.start, (h.end - h.start) as nat);
        assert(body =~= Seq::new(
            (h.end - h.start) as nat,
            |i: int| rows::context_row_v(false, h.start + i),
        ));
        lemma_lefts_add((before + gap).push(sep), body);
        if k > 1 {
            assert(doc.hunks[k - 2].end <= doc.hunks[k - 1].start);
        }
        assert(range_v(0, start) + range_v(start, h.start) + Seq::empty() + range_v(h.start, h.end)
            =~= range_v(0, h.end));
    }
}

/// In one column the rows show every line of the diff, or fold it, once and in order.
pub proof fn law_unified_rows_cover(doc: FileDiffV, expanded: Set<usize>)
    requires
        laid_out(doc),
        doc.lines.len() <= usize::MAX,
    ensures
        lefts(rows::rows_v(doc, expanded, false)) == order::upto(doc.lines.len()),
{
    let n = doc.hunks.len();
    lemma_unified_upto(doc, expanded, n);
    let start = rows::gap_start(doc.hunks, n as int);
    let end = doc.lines.len() as int;
    lemma_gap_rows(expanded, false, start, end);
    lemma_lefts_add(
        rows::rows_upto(doc, expanded, false, n),
        rows::gap_rows_v(expanded, false, start, end),
    );
    assert(range_v(0, start) + range_v(start, end) =~= order::upto(doc.lines.len()));
}

/// A list holds the lines of the new side between two indices, each once.
pub open spec fn covers(list: Seq<usize>, lines: Seq<LineV>, start: int, end: int) -> bool {
    &&& list.no_duplicates()
    &&& forall|x: usize| #[trigger]
        list.contains(x) <==> start <= x < end && lines[x as int].new_lineno() is Some
}

proof fn lemma_covers_add(
    a: Seq<usize>,
    b: Seq<usize>,
    lines: Seq<LineV>,
    start: int,
    mid: int,
    end: int,
)
    requires
        covers(a, lines, start, mid),
        covers(b, lines, mid, end),
        start <= mid <= end,
    ensures
        covers(a + b, lines, start, end),
{
    let c = a + b;
    assert forall|x: usize| #[trigger] c.contains(x) <==> start <= x < end
        && lines[x as int].new_lineno() is Some by {
        assert(a.contains(x) <==> start <= x < mid && lines[x as int].new_lineno() is Some);
        assert(b.contains(x) <==> mid <= x < end && lines[x as int].new_lineno() is Some);
        if a.contains(x) {
            let i = choose|i: int| 0 <= i < a.len() && a[i] == x;
            assert(c[i] == x);
        }
        if b.contains(x) {
            let i = choose|i: int| 0 <= i < b.len() && b[i] == x;
            assert(c[a.len() + i] == x);
        }
    }
    assert forall|i: int, j: int| 0 <= i < j < c.len() implies c[i] != c[j] by {
        if i < a.len() {
            assert(a.contains(a[i]));
            if j >= a.len() {
                assert(b.contains(b[j - a.len()]));
            }
        }
    }
}

proof fn lemma_old_side_add(lines: Seq<LineV>, a: int, b: int, c: int)
    requires
        a <= b <= c,
    ensures
        pairing::old_side(lines, a, c) == pairing::old_side(lines, a, b) + pairing::old_side(
            lines,
            b,
            c,
        ),
    decreases c - b,
{
    if b == c {
        assert(pairing::old_side(lines, b, c) =~= Seq::empty());
        assert(pairing::old_side(lines, a, c) =~= pairing::old_side(lines, a, b)
            + pairing::old_side(lines, b, c));
    } else {
        lemma_old_side_add(lines, a, b, c - 1);
        assert(pairing::old_side(lines, a, c) =~= pairing::old_side(lines, a, b)
            + pairing::old_side(lines, b, c));
    }
}

/// Unchanged lines stand on both sides.
proof fn lemma_unchanged(lines: Seq<LineV>, start: int, end: int)
    requires
        0 <= start <= end <= lines.len() <= usize::MAX,
        forall|j: int| start <= j < end ==> !(#[trigger] lines[j]).is_change(),
    ensures
        pairing::old_side(lines, start, end) == range_v(start, end),
        covers(range_v(start, end), lines, start, end),
    decreases end - start,
{
    if start < end {
        lemma_unchanged(lines, start, end - 1);
        assert(!lines[end - 1].is_change());
        assert(range_v(start, end) =~= range_v(start, end - 1).push((end - 1) as usize));
    } else {
        assert(range_v(start, end) =~= Seq::empty());
    }
    let all = range_v(start, end);
    assert forall|x: usize| #[trigger] all.contains(x) <==> start <= x < end
        && lines[x as int].new_lineno() is Some by {
        if start <= x < end {
            assert(!lines[x as int].is_change());
            assert(all[x - start] == x);
        }
    }
}

/// The first cells of a run's rows hold removed lines in order; no added line is lost.
proof fn lemma_cells(lines: Seq<LineV>, i: int, end: int, m: int)
    requires
        0 <= i <= end <= lines.len() <= usize::MAX,
        0 <= m <= pairing::run_rows_v(lines, i, end).len(),
    ensures
        ({
            let cells = pairing::run_rows_v(lines, i, end);
            let removed = pairing::old_side(lines, i, end);
            let rows = rows::side_cells_v(cells).take(m);
            &&& lefts(rows) == removed.take(
                if m < removed.len() {
                    m
                } else {
                    removed.len() as int
                },
            )
            &&& rights(rows).no_duplicates()
            &&& forall|x: usize| #[trigger]
                rights(rows).contains(x) <==> exists|k: int|
                    0 <= k < m && (#[trigger] cells[k]).1 == Some(x)
        }),
    decreases m,
{
    let cells = pairing::run_rows_v(lines, i, end);
    let removed = pairing::old_side(lines, i, end);
    let added = pairing::new_side(lines, i, end);
    let rows = rows::side_cells_v(cells).take(m);
    pairing::lemma_old_side(lines, i, end);
    pairing::lemma_new_side(lines, i, end);
    pairing::law_pairing_keeps_every_line(removed, added, lines);
    if m == 0 {
        assert(rows =~= Seq::empty());
        assert(lefts(rows) =~= removed.take(0));
    } else {
        lemma_cells(lines, i, end, m - 1);
        let before = rows::side_cells_v(cells).take(m - 1);
        assert(rows.drop_last() =~= before);
        let cell = cells[m - 1];
        assert(rows.last() == (DisplayRow::SideLine { left: cell.0, right: cell.1 }));
        if m <= removed.len() {
            assert(cell.0 == Some(removed[m - 1]));
            assert(removed.take(m) =~= removed.take(m - 1).push(removed[m - 1]));
        } else {
            assert(cell.0 is None);
        }
        assert(lefts(rows) =~= removed.take(
            if m < removed.len() {
                m
            } else {
                removed.len() as int
            },
        ));
        let all = rights(rows);
        let old = rights(before);
        assert(all == old + one_v(cell.1));
        assert forall|x: usize| #[trigger] all.contains(x) <==> exists|k: int|
            0 <= k < m && (#[trigger] cells[k]).1 == Some(x) by {
            assert(old.contains(x) <==> exists|k: int|
                0 <= k < m - 1 && (#[trigger] cells[k]).1 == Some(x));
            if old.contains(x) {
                let k = choose|k: int| 0 <= k < old.len() && old[k] == x;
                assert(all[k] == x);
            }
            if cell.1 == Some(x) {
                assert(all[old.len() as int] == x);
            }
            if all.contains(x) {
                let k = choose|k: int| 0 <= k < all.len() && all[k] == x;
                if k < old.len() {
                    assert(old[k] == x);
                } else {
                    assert(cell.1 == Some(x));
                }
            }
        }
        assert forall|a: int, b: int| 0 <= a < b < all.len() implies all[a] != all[b] by {
            if b == old.len() {
                assert(old.contains(old[a]));
                let k = choose|k: int| 0 <= k < m - 1 && (#[trigger] cells[k]).1 == Some(old[a]);
                assert(cells[k].1 != cells[m - 1].1);
            }
        }
    }
}

/// In two columns, the rows of a range of lines hold it.
proof fn lemma_side_rows(lines: Seq<LineV>, i: int, end: int)
    requires
        0 <= i <= end <= lines.len() <= usize::MAX,
    ensures
        lefts(rows::side_rows_v(lines, i, end)) == pairing::old_side(lines, i, end),
        covers(rights(rows::side_rows_v(lines, i, end)), lines, i, end),
    decreases end - i,
{
    if i >= end {
        lemma_unchanged(lines, i, end);
        assert(range_v(i, end) =~= Seq::empty());
    } else if !lines[i].is_change() {
        lemma_side_rows(lines, i + 1, end);
        lemma_unchanged(lines, i, i + 1);
        let first = seq![rows::context_row_v(true, i)];
        reveal_with_fuel(lefts, 2);
        reveal_with_fuel(rights, 2);
        assert(first.drop_last() =~= Seq::empty());
        assert(lefts(first) =~= range_v(i, i + 1));
        assert(rights(first) =~= range_v(i, i + 1));
        lemma_lefts_add(first, rows::side_rows_v(lines, i + 1, end));
        lemma_rights_add(first, rows::side_rows_v(lines, i + 1, end));
        lemma_old_side_add(lines, i, i + 1, end);
        lemma_covers_add(
            range_v(i, i + 1),
            rights(rows::side_rows_v(lines, i + 1, end)),
            lines,
            i,
            i + 1,
            end,
        );
    } else {
        pairing::lemma_change_end(lines, i, end);
        let e = pairing::change_end(lines, i, end);
        lemma_side_rows(lines, e, end);
        let cells = pairing::run_rows_v(lines, i, e);
        let removed = pairing::old_side(lines, i, e);
        let added = pairing::new_side(lines, i, e);
        let rows = rows::side_cells_v(cells);
        lemma_cells(lines, i, e, cells.len() as int);
        assert(rows.take(cells.len() as int) =~= rows);
        pairing::lemma_new_side(lines, i, e);
        pairing::law_pairing_keeps_every_line(removed, added, lines);
        assert(removed.take(removed.len() as int) =~= removed);
        assert(covers(rights(rows), lines, i, e)) by {
            assert forall|x: usize| #[trigger] rights(rows).contains(x) <==> i <= x < e
                && lines[x as int].new_lineno() is Some by {
                assert(added.contains(x) <==> i <= x < e && lines[x as int].new_lineno() is Some);
                if rights(rows).contains(x) {
                    let k = choose|k: int|
                        0 <= k < cells.len() && (#[trigger] cells[k]).1 == Some(x);
                    assert(added.contains(x));
                }
            }
        }
        lemma_lefts_add(rows, rows::side_rows_v(lines, e, end));
        lemma_rights_add(rows, rows::side_rows_v(lines, e, end));
        lemma_old_side_add(lines, i, e, end);
        lemma_covers_add(rights(rows), rights(rows::side_rows_v(lines, e, end)), lines, i, e, end);
    }
}

/// Lines between hunks are unchanged.
proof fn lemma_gap_unchanged(doc: FileDiffV, k: nat, end: int)
    requires
        laid_out(doc),
        k <= doc.hunks.len(),
        end == (if k < doc.hunks.len() {
            doc.hunks[k as int].start
        } else {
            doc.lines.len() as int
        }),
    ensures
        0 <= rows::gap_start(doc.hunks, k as int) <= end <= doc.lines.len(),
        forall|j: int|
            rows::gap_start(doc.hunks, k as int) <= j < end ==> !(#[trigger] doc.lines[j]).is_change(),
{
    let start = rows::gap_start(doc.hunks, k as int);
    if 0 < k && k < doc.hunks.len() {
        assert(doc.hunks[k - 1].end <= doc.hunks[k as int].start);
    }
    assert forall|j: int| start <= j < end implies !(#[trigger] doc.lines[j]).is_change() by {
        if doc.lines[j].is_change() {
            let l = choose|l: int| 0 <= l < doc.hunks.len() && #[trigger] diff::in_hunk(doc.hunks[l], j);
            if l < k {
                if l < k - 1 {
                    assert(doc.hunks[l].end <= doc.hunks[k - 1].start);
                }
            } else if l > k {
                assert(doc.hunks[k as int].end <= doc.hunks[l].start);
            }
        }
    }
}

/// In two columns, the rows up to hunk `k` hold the lines up to its end.
proof fn lemma_side_upto(doc: FileDiffV, expanded: Set<usize>, k: nat)
    requires
        laid_out(doc),
        doc.lines.len() <= usize::MAX,
        k <= doc.hunks.len(),
    ensures
        ({
            let rows = rows::rows_upto(doc, expanded, true, k);
            let end = rows::gap_start(doc.hunks, k as int);
            &&& lefts(rows) == pairing::old_side(doc.lines, 0, end)
            &&& covers(rights(rows), doc.lines, 0, end)
        }),
    decreases k,
{
    if k == 0 {
        lemma_unchanged(doc.lines, 0, 0);
        assert(range_v(0, 0) =~= Seq::empty());
    } else {
        let h = doc.hunks[k - 1];
        lemma_side_upto(doc, expanded, (k - 1) as nat);
        let before = rows::rows_upto(doc, expanded, true, (k - 1) as nat);
        let start = rows::gap_start(doc.hunks, k - 1);
        let gap = rows::gap_rows_v(expanded, true, start, h.start);
        lemma_gap_unchanged(doc, (k - 1) as nat, h.start);
        lemma_gap_rows(expanded, true, start, h.start);
        lemma_unchanged(doc.lines, start, h.start);
        lemma_lefts_add(before, gap);
        lemma_rights_add(before, gap);
        lemma_old_side_add(doc.lines, 0, start, h.start);
        lemma_covers_add(rights(before), rights(gap), doc.lines, 0, start, h.start);
        let sep = DisplayRow::HunkSep { hunk: (k - 1) as usize };
        lemma_lefts_push(before + gap, sep);
        lemma_rights_push(before + gap, sep);
        let top = (before + gap).push(sep);
        assert(lefts(top) =~= lefts(before + gap));
        assert(rights(top) =~= rights(before + gap));
        let body = rows::side_rows_v(doc.lines, h.start, h.end);
        lemma_side_rows(doc.lines, h.start, h.end);
        lemma_lefts_add(top, body);
        lemma_rights_add(top, body);
        lemma_old_side_add(doc.lines, 0, h.start, h.end);
        lemma_covers_add(rights(top), rights(body), doc.lines, 0, h.start, h.end);
    }
}

/// In two columns the left column shows every line of the old side, or folds it, once and in
/// order; and the right column every line of the new side, once.
pub proof fn law_side_rows_cover(doc: FileDiffV, expanded: Set<usize>)
    requires
        laid_out(doc),
        doc.lines.len() <= usize::MAX,
    ensures
        lefts(rows::rows_v(doc, expanded, true)) == pairing::old_side(
            doc.lines,
            0,
            doc.lines.len() as int,
        ),
        covers(rights(rows::rows_v(doc, expanded, true)), doc.lines, 0, doc.lines.len() as int),
{
    let n = doc.hunks.len();
    lemma_side_upto(doc, expanded, n);
    let start = rows::gap_start(doc.hunks, n as int);
    let end = doc.lines.len() as int;
    let before = rows::rows_upto(doc, expanded, true, n);
    let gap = rows::gap_rows_v(expanded, true, start, end);
    lemma_gap_unchanged(doc, n, end);
    lemma_gap_rows(expanded, true, start, end);
    lemma_unchanged(doc.lines, start, end);
    lemma_lefts_add(before, gap);
    lemma_rights_add(before, gap);
    lemma_old_side_add(doc.lines, 0, start, end);
    lemma_covers_add(rights(before), rights(gap), doc.lines, 0, start, end);
}

} // verus!
