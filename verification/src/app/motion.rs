//! Moving about in the open diff: scrolling, hunks, folds and the search.
use std::collections::HashSet;
use vstd::prelude::*;

use crate::app::rows;
use crate::text;
use crate::util;
use crate::app::coverage;
use crate::app::pairing;
use crate::app::rows::{DiffState, DiffV, DisplayRow, ViewMode};
use crate::git::diff;
use crate::git::model::{FileDiffV, LineV};
use crate::text::{contains, to_lowercase};
use crate::util::moved;

verus! {

broadcast use {vstd::seq_lib::group_seq_properties, vstd::std_specs::hash::group_hash_axioms};

// ---- Rows and lines ----

/// The line that a row shows: in two columns that of the old side, else that of the new side.
pub open spec fn row_line_v(row: DisplayRow) -> Option<usize> {
    match row {
        DisplayRow::Line { idx } => Some(idx),
        DisplayRow::SideLine { left, right } => if left is Some {
            left
        } else {
            right
        },
        _ => None,
    }
}

/// The line shown at a row, where there is one.
pub open spec fn doc_line_at_v(rows: Seq<DisplayRow>, row: int) -> Option<usize> {
    if 0 <= row < rows.len() {
        row_line_v(rows[row])
    } else {
        None
    }
}

/// The first line shown from a row on.
pub open spec fn line_after_v(rows: Seq<DisplayRow>, row: int) -> Option<usize>
    decreases rows.len() - row,
{
    if row >= rows.len() {
        None
    } else if doc_line_at_v(rows, row) is Some {
        doc_line_at_v(rows, row)
    } else {
        line_after_v(rows, row + 1)
    }
}

/// The last line shown before a row.
pub open spec fn line_before_v(rows: Seq<DisplayRow>, row: int) -> Option<usize>
    decreases row,
{
    if row <= 0 {
        None
    } else if doc_line_at_v(rows, row - 1) is Some {
        doc_line_at_v(rows, row - 1)
    } else {
        line_before_v(rows, row - 1)
    }
}

/// The line nearest the top of the view: the first from there on, else the last above it.
pub open spec fn top_line_v(rows: Seq<DisplayRow>, scroll: int) -> Option<usize> {
    if line_after_v(rows, scroll) is Some {
        line_after_v(rows, scroll)
    } else {
        line_before_v(rows, scroll)
    }
}

// ---- Folds ----

/// The ranges of lines before hunk `k` that are in no hunk.
pub open spec fn gaps_before(doc: FileDiffV, k: nat) -> Seq<(int, int)>
    decreases k,
{
    if k == 0 {
        Seq::empty()
    } else {
        let before = gaps_before(doc, (k - 1) as nat);
        let start = rows::gap_start(doc.hunks, k - 1);
        let end = doc.hunks[k - 1].start;
        if end > start {
            before.push((start, end))
        } else {
            before
        }
    }
}

/// The ranges of lines that are in no hunk: what can be folded.
pub open spec fn gaps_v(doc: FileDiffV) -> Seq<(int, int)> {
    let before = gaps_before(doc, doc.hunks.len());
    let start = rows::gap_start(doc.hunks, doc.hunks.len() as int);
    let end = doc.lines.len() as int;
    if end > start {
        before.push((start, end))
    } else {
        before
    }
}

/// Ranges of machine integers as ranges of mathematical ones.
pub open spec fn ranges_view(gaps: Seq<(usize, usize)>) -> Seq<(int, int)> {
    gaps.map_values(|g: (usize, usize)| (g.0 as int, g.1 as int))
}

/// The start of the first range that holds a line, from range `i` on.
pub open spec fn gap_of_v(gaps: Seq<(int, int)>, line: int, i: int) -> Option<int>
    decreases gaps.len() - i,
{
    if i >= gaps.len() || i < 0 {
        None
    } else if gaps[i].0 <= line < gaps[i].1 {
        Some(gaps[i].0)
    } else {
        gap_of_v(gaps, line, i + 1)
    }
}

/// How far two rows are apart.
pub open spec fn apart(a: int, b: int) -> int {
    if a < b {
        b - a
    } else {
        a - b
    }
}

/// Row `i` is a fold, none is nearer to `scroll`, and none before it is as near.
pub open spec fn is_nearest_fold(rows: Seq<DisplayRow>, scroll: int, i: int) -> bool {
    &&& 0 <= i < rows.len()
    &&& rows[i] is Fold
    &&& forall|j: int|
        0 <= j < rows.len() && (#[trigger] rows[j]) is Fold ==> apart(i, scroll) <= apart(j, scroll)
            && (j < i ==> apart(i, scroll) < apart(j, scroll))
}

/// The first line of the fold that is nearest to `scroll`.
pub open spec fn nearest_fold_v(rows: Seq<DisplayRow>, scroll: int) -> Option<usize> {
    if exists|i: int| is_nearest_fold(rows, scroll, i) {
        Some(rows[choose|i: int| is_nearest_fold(rows, scroll, i)]->Fold_start)
    } else {
        None
    }
}

// ---- Hunks ----

/// The last hunk whose separator is not below `scroll`, of the first `k`; the first hunk where all
/// are.
pub open spec fn current_hunk_v(sep_rows: Seq<usize>, scroll: int, k: nat) -> int
    decreases k,
{
    if k == 0 {
        0
    } else if sep_rows[k - 1] <= scroll {
        k - 1
    } else {
        current_hunk_v(sep_rows, scroll, (k - 1) as nat)
    }
}

impl DiffV {
    /// The hunk at the top of the view.
    pub open spec fn current_hunk(self) -> int {
        current_hunk_v(self.sep_rows, self.scroll, self.sep_rows.len())
    }

    /// The separator row of the hunk `dir` hunks on, kept within the diff.
    pub open spec fn hunk_row(self, dir: int) -> Option<int> {
        if self.sep_rows.len() == 0 {
            None
        } else {
            Some(
                self.sep_rows[util::clamp_v(
                    self.current_hunk() + dir,
                    0,
                    self.sep_rows.len() - 1,
                )] as int,
            )
        }
    }

    /// The last row that can be at the top of the view.
    pub open spec fn last_row(self) -> int {
        if self.total_rows > 0 {
            self.total_rows - 1
        } else {
            0
        }
    }

    /// Scrolled by `delta` rows.
    pub open spec fn scrolled(self, delta: int) -> DiffV {
        DiffV { scroll: util::clamp_v(self.scroll + delta, 0, self.last_row()), ..self }
    }

    /// Scrolled to a row.
    pub open spec fn scrolled_to(self, row: int) -> DiffV {
        DiffV {
            scroll: if row < self.last_row() {
                row
            } else {
                self.last_row()
            },
            ..self
        }
    }

    /// Scrolled to the hunk `dir` hunks on.
    pub open spec fn hunk_jumped(self, dir: int) -> DiffV {
        match self.hunk_row(dir) {
            Some(row) => self.scrolled_to(row),
            None => self,
        }
    }

    /// The separator row of a hunk; the first row where there is no such hunk.
    pub open spec fn sep_row(self, hunk: int) -> int {
        if 0 <= hunk < self.sep_rows.len() {
            self.sep_rows[hunk] as int
        } else {
            0
        }
    }

    /// Shown at the separator of a hunk.
    pub open spec fn anchored(self, hunk: int) -> DiffV {
        DiffV { scroll: self.sep_row(hunk), ..self }
    }

    /// In another layout, with the same hunk at the top.
    pub open spec fn in_mode(self, mode: ViewMode) -> DiffV {
        (DiffV { mode, ..self }).rebuilt().anchored(self.current_hunk())
    }

    /// With the nearest fold open.
    pub open spec fn fold_expanded(self) -> DiffV {
        match nearest_fold_v(self.rows, self.scroll) {
            Some(start) => (DiffV { expanded: self.expanded.insert(start), ..self }).rebuilt(),
            None => self,
        }
    }

    /// With the fold closed that holds the line at the top.
    pub open spec fn fold_collapsed(self) -> DiffV {
        match top_line_v(self.rows, self.scroll) {
            Some(line) => match gap_of_v(gaps_v(self.doc), line as int, 0) {
                Some(start) => (DiffV {
                    expanded: self.expanded.remove(start as usize),
                    ..self
                }).rebuilt(),
                None => self,
            },
            None => self,
        }
    }

    /// With all folds open, or all closed.
    pub open spec fn folded_all(self, expand: bool) -> DiffV {
        (DiffV {
            expanded: if expand {
                gaps_v(self.doc).map_values(|g: (int, int)| g.0 as usize).to_set()
            } else {
                Set::empty()
            },
            ..self
        }).rebuilt()
    }
}

/// The gaps before a hunk are among all gaps.
proof fn lemma_gaps_prefix(doc: FileDiffV, j: nat, k: nat)
    requires
        j <= k,
    ensures
        gaps_before(doc, j).is_prefix_of(gaps_before(doc, k)),
    decreases k,
{
    if j < k {
        lemma_gaps_prefix(doc, j, (k - 1) as nat);
    }
}

/// A gap that is not empty is one of the gaps.
proof fn lemma_gap_listed(doc: FileDiffV, k: nat)
    requires
        k <= doc.hunks.len(),
    ensures
        ({
            let start = rows::gap_start(doc.hunks, k as int);
            let end = if k < doc.hunks.len() {
                doc.hunks[k as int].start
            } else {
                doc.lines.len() as int
            };
            end > start ==> gaps_v(doc).map_values(
                |g: (int, int)| g.0 as usize,
            ).to_set().contains(start as usize)
        }),
{
    let all = gaps_v(doc);
    let starts = all.map_values(|g: (int, int)| g.0 as usize);
    let start = rows::gap_start(doc.hunks, k as int);
    let before = gaps_before(doc, doc.hunks.len());
    if k < doc.hunks.len() && doc.hunks[k as int].start > start {
        let at = gaps_before(doc, k).len() as int;
        lemma_gaps_prefix(doc, (k + 1) as nat, doc.hunks.len());
        assert(gaps_before(doc, (k + 1) as nat)[at] == (start, doc.hunks[k as int].start));
        assert(before[at] == (start, doc.hunks[k as int].start));
        assert(all[at] == before[at]);
        assert(starts[at] == start as usize);
    } else if k == doc.hunks.len() && doc.lines.len() > start {
        assert(starts.last() == start as usize);
    }
}

/// No row is a fold.
pub open spec fn no_folds(rows: Seq<DisplayRow>) -> bool {
    forall|i: int| 0 <= i < rows.len() ==> !((#[trigger] rows[i]) is Fold)
}

/// The rows of a hunk's lines in two columns hold no fold.
proof fn lemma_side_unfolded(lines: Seq<LineV>, i: int, end: int)
    ensures
        no_folds(rows::side_rows_v(lines, i, end)),
    decreases end - i,
{
    if i < end {
        if !lines[i].is_change() {
            lemma_side_unfolded(lines, i + 1, end);
        } else {
            pairing::lemma_change_end(lines, i, end);
            lemma_side_unfolded(lines, pairing::change_end(lines, i, end), end);
        }
    }
}

proof fn lemma_upto_unfolded(doc: FileDiffV, expanded: Set<usize>, side: bool, k: nat)
    requires
        k <= doc.hunks.len(),
        expanded == gaps_v(doc).map_values(|g: (int, int)| g.0 as usize).to_set(),
    ensures
        no_folds(rows::rows_upto(doc, expanded, side, k)),
    decreases k,
{
    if k > 0 {
        lemma_upto_unfolded(doc, expanded, side, (k - 1) as nat);
        lemma_gap_listed(doc, (k - 1) as nat);
        let h = doc.hunks[k - 1];
        lemma_side_unfolded(doc.lines, h.start, h.end);
        assert(no_folds(rows::hunk_rows_v(doc.lines, side, h.start, h.end)));
        assert(no_folds(rows::gap_rows_v(expanded, side, rows::gap_start(doc.hunks, k - 1), h.start)));
    }
}

/// Opening all folds leaves none.
pub proof fn law_all_folds_open(d: DiffV)
    ensures
        no_folds(d.folded_all(true).rows),
{
    let side = d.mode == rows::ViewMode::SideBySide;
    let expanded = gaps_v(d.doc).map_values(|g: (int, int)| g.0 as usize).to_set();
    let n = d.doc.hunks.len();
    lemma_upto_unfolded(d.doc, expanded, side, n);
    lemma_gap_listed(d.doc, n);
    assert(no_folds(
        rows::gap_rows_v(
            expanded,
            side,
            rows::gap_start(d.doc.hunks, n as int),
            d.doc.lines.len() as int,
        ),
    ));
}

/// Of two times that all folds are opened or closed, the later counts.
pub proof fn law_folding_all_again(d: DiffV, first: bool, second: bool)
    ensures
        d.folded_all(first).folded_all(second) == d.folded_all(second),
{
}

/// Where a separator is at the top, its hunk is the current one.
proof fn lemma_hunk_at_separator(sep_rows: Seq<usize>, hunk: int, k: nat)
    requires
        0 <= hunk < k <= sep_rows.len(),
        forall|i: int, j: int|
            0 <= i < j < sep_rows.len() ==> (#[trigger] sep_rows[i]) < (#[trigger] sep_rows[j]),
    ensures
        current_hunk_v(sep_rows, sep_rows[hunk] as int, k) == hunk,
    decreases k,
{
    if hunk < k - 1 {
        assert(sep_rows[hunk] < sep_rows[k - 1]);
        lemma_hunk_at_separator(sep_rows, hunk, (k - 1) as nat);
    }
}

/// The current hunk is one of the hunks.
proof fn lemma_current_hunk(sep_rows: Seq<usize>, scroll: int, k: nat)
    requires
        k <= sep_rows.len(),
    ensures
        0 <= current_hunk_v(sep_rows, scroll, k),
        k > 0 ==> current_hunk_v(sep_rows, scroll, k) < k,
    decreases k,
{
    if k > 0 {
        lemma_current_hunk(sep_rows, scroll, (k - 1) as nat);
    }
}

/// From the separator of one hunk, jumping to the next hunk and to the previous one lead from each
/// to the other; at the ends such a jump stays.
pub proof fn law_hunk_jumps(d: DiffV, k: int)
    requires
        d.rebuilt() == d,
        d.rows.len() <= usize::MAX,
        0 <= k < d.sep_rows.len(),
        d.scroll == d.sep_rows[k],
    ensures
        d.hunk_jumped(1) == d.anchored(
            if k + 1 < d.sep_rows.len() {
                k + 1
            } else {
                k
            },
        ),
        d.hunk_jumped(-1) == d.anchored(
            if k > 0 {
                k - 1
            } else {
                k
            },
        ),
        k + 1 < d.sep_rows.len() ==> d.hunk_jumped(1).hunk_jumped(-1) == d,
{
    rows::law_rebuilt_rows(d);
    lemma_hunk_at_separator(d.sep_rows, k, d.sep_rows.len());
    if k + 1 < d.sep_rows.len() {
        lemma_hunk_at_separator(d.sep_rows, k + 1, d.sep_rows.len());
    }
}

/// A change of the layout keeps the current hunk.
pub proof fn law_layout_keeps_hunk(d: DiffV, mode: ViewMode)
    requires
        d.sep_rows.len() == d.doc.hunks.len(),
        d.in_mode(mode).rows.len() <= usize::MAX,
    ensures
        d.in_mode(mode).mode == mode,
        d.in_mode(mode).current_hunk() == d.current_hunk(),
{
    let other = (DiffV { mode, ..d }).rebuilt();
    rows::law_rebuilt_rows(DiffV { mode, ..d });
    lemma_current_hunk(d.sep_rows, d.scroll, d.sep_rows.len());
    if d.sep_rows.len() > 0 {
        lemma_hunk_at_separator(other.sep_rows, d.current_hunk(), other.sep_rows.len());
    }
}

/// Changing the layout and changing it back leaves all but the place of the view.
pub proof fn law_layout_there_and_back(d: DiffV, mode: ViewMode)
    requires
        d.rebuilt() == d,
    ensures
        d.in_mode(mode).in_mode(d.mode) == (DiffV {
            scroll: d.in_mode(mode).in_mode(d.mode).scroll,
            ..d
        }),
{
    let back = d.in_mode(mode).in_mode(d.mode);
    assert(back.rows == d.rebuilt().rows);
    assert(back.sep_rows == d.rebuilt().sep_rows);
}

// ---- Related files ----

impl DiffV {
    /// The related file at a cursor, or the one before it, and the cursor after it; both go round
    /// the end.
    pub open spec fn next_related(self, cursor: int, dir: int) -> Option<(usize, int)> {
        let len = self.related.len() as int;
        if len == 0 {
            None
        } else {
            let at = if dir > 0 {
                cursor % len
            } else {
                (cursor + len - 1) % len
            };
            Some((self.related[at].file_index as usize, (at + 1) % len))
        }
    }
}

impl DiffState {
    /// The related file at a cursor, or the one before it, and the cursor after it.
    pub fn next_related(&self, cursor: usize, dir: isize) -> (r: Option<(usize, usize)>)
        ensures
            match r {
                Some((target, next)) => self.deep_view().next_related(cursor as int, dir as int)
                    == Some((target, next as int)),
                None => self.deep_view().next_related(cursor as int, dir as int) is None,
            },
    {
        let len: usize = self.related.len();
        if len == 0 {
            return None;
        }
        let at: usize = if dir > 0 {
            cursor % len
        } else {
            ((cursor as u128 + len as u128 - 1) % (len as u128)) as usize
        };
        assert(self.deep_view().related[at as int] == self.related@[at as int].deep_view());
        let next: usize = if at + 1 < len {
            at + 1
        } else {
            0
        };
        proof {
            let l = len as int;
            if at + 1 < l {
                vstd::arithmetic::div_mod::lemma_small_mod((at + 1) as nat, len as nat);
            } else {
                vstd::arithmetic::div_mod::lemma_mod_self_0(l);
            }
        }
        Some((self.related[at].file_index, next))
    }
}

// ---- Search ----

/// Does a line hold the text that is searched for, whatever the case?
pub open spec fn line_matches_v(lines: Seq<LineV>, needle: Seq<char>, idx: Option<usize>) -> bool {
    match idx {
        Some(i) => text::contains_v(text::lowercase(lines[i as int].content()), needle),
        None => false,
    }
}

/// Does a row show such a line?
pub open spec fn row_matches_v(lines: Seq<LineV>, needle: Seq<char>, row: DisplayRow) -> bool {
    match row {
        DisplayRow::Line { idx } => line_matches_v(lines, needle, Some(idx)),
        DisplayRow::SideLine { left, right } => line_matches_v(lines, needle, left)
            || line_matches_v(lines, needle, right),
        _ => false,
    }
}

/// The matching ones of the first `k` rows, in order.
pub open spec fn matches_v(
    lines: Seq<LineV>,
    needle: Seq<char>,
    rows: Seq<DisplayRow>,
    k: nat,
) -> Seq<usize>
    decreases k,
{
    if k == 0 {
        Seq::empty()
    } else {
        let before = matches_v(lines, needle, rows, (k - 1) as nat);
        if row_matches_v(lines, needle, rows[k - 1]) {
            before.push((k - 1) as usize)
        } else {
            before
        }
    }
}

/// The first match from `i` on that is not above `scroll`; the first of all where there is none.
pub open spec fn first_match_v(matches: Seq<usize>, scroll: int, i: int) -> int
    decreases matches.len() - i,
{
    if i >= matches.len() {
        0
    } else if matches[i] >= scroll {
        i
    } else {
        first_match_v(matches, scroll, i + 1)
    }
}

impl DiffV {
    /// With the search forgotten.
    pub open spec fn unsearched(self) -> DiffV {
        DiffV { search: Seq::empty(), matches: Seq::empty(), ..self }
    }

    /// With the matches found anew; where `jump` is set, at the first match from the top of the
    /// view on.
    pub open spec fn rematched(self, jump: bool) -> DiffV {
        if self.search.len() == 0 {
            DiffV { matches: Seq::empty(), ..self }
        } else {
            let matches = matches_v(
                self.doc.lines,
                text::lowercase(self.search),
                self.rows,
                self.rows.len(),
            );
            let found = DiffV { matches, ..self };
            if jump {
                let idx = first_match_v(matches, self.scroll, 0);
                DiffV {
                    match_idx: idx,
                    scroll: if idx < matches.len() {
                        matches[idx] as int
                    } else {
                        self.scroll
                    },
                    ..found
                }
            } else {
                found
            }
        }
    }

    /// At the match `dir` matches on, round the end.
    pub open spec fn match_jumped(self, dir: int) -> DiffV
        recommends
            self.matches.len() > 0,
    {
        let idx = (self.match_idx + dir) % (self.matches.len() as int);
        DiffV { match_idx: idx, scroll: self.matches[idx] as int, ..self }
    }
}

/// The matches of the first `k` rows are those of them that match, in order.
proof fn lemma_matches(lines: Seq<LineV>, needle: Seq<char>, rows: Seq<DisplayRow>, k: nat)
    requires
        k <= rows.len() <= usize::MAX,
    ensures
        ({
            let m = matches_v(lines, needle, rows, k);
            &&& forall|i: int, j: int|
                0 <= i < j < m.len() ==> (#[trigger] m[i]) < (#[trigger] m[j])
            &&& forall|i: int|
                0 <= i < m.len() ==> (#[trigger] m[i]) < k && row_matches_v(
                    lines,
                    needle,
                    rows[m[i] as int],
                )
            &&& forall|r: int|
                0 <= r < k && row_matches_v(lines, needle, #[trigger] rows[r]) ==> m.contains(
                    r as usize,
                )
        }),
    decreases k,
{
    if k > 0 {
        lemma_matches(lines, needle, rows, (k - 1) as nat);
        let before = matches_v(lines, needle, rows, (k - 1) as nat);
        let m = matches_v(lines, needle, rows, k);
        assert forall|r: int|
            0 <= r < k && row_matches_v(lines, needle, #[trigger] rows[r]) implies m.contains(
            r as usize,
        ) by {
            if r == k - 1 {
                assert(m[m.len() - 1] == r as usize);
            } else {
                let i = choose|i: int| 0 <= i < before.len() && before[i] == r as usize;
                assert(m[i] == r as usize);
            }
        }
    }
}

/// A search finds the rows that show the text, whatever the case, all of them and no others, from
/// the top down.
pub proof fn law_search_finds(d: DiffV, jump: bool)
    requires
        d.search.len() > 0,
        d.rows.len() <= usize::MAX,
    ensures
        ({
            let m = d.rematched(jump).matches;
            let needle = text::lowercase(d.search);
            &&& forall|i: int, j: int|
                0 <= i < j < m.len() ==> (#[trigger] m[i]) < (#[trigger] m[j])
            &&& forall|i: int|
                0 <= i < m.len() ==> (#[trigger] m[i]) < d.rows.len() && row_matches_v(
                    d.doc.lines,
                    needle,
                    d.rows[m[i] as int],
                )
            &&& forall|r: int|
                0 <= r < d.rows.len() && row_matches_v(d.doc.lines, needle, #[trigger] d.rows[r])
                    ==> m.contains(r as usize)
        }),
{
    lemma_matches(d.doc.lines, text::lowercase(d.search), d.rows, d.rows.len());
}

/// Going from match to match stays among the matches and shows the one gone to; the next match and
/// the one before undo each other, round the end too.
pub proof fn law_match_jumps(d: DiffV)
    requires
        0 <= d.match_idx < d.matches.len(),
    ensures
        forall|dir: int|
            0 <= (#[trigger] d.match_jumped(dir)).match_idx < d.matches.len() && d.match_jumped(
                dir,
            ).scroll == d.matches[d.match_jumped(dir).match_idx],
        d.match_jumped(1).match_jumped(-1) == (DiffV {
            scroll: d.matches[d.match_idx] as int,
            ..d
        }),
        d.match_jumped(-1).match_jumped(1) == (DiffV {
            scroll: d.matches[d.match_idx] as int,
            ..d
        }),
{
    let n = d.matches.len() as int;
    let i = d.match_idx;
    assert forall|dir: int| 0 <= (#[trigger] d.match_jumped(dir)).match_idx < n by {
        vstd::arithmetic::div_mod::lemma_mod_bound(i + dir, n);
    }
    vstd::arithmetic::div_mod::lemma_small_mod(i as nat, n as nat);
    if i + 1 < n {
        vstd::arithmetic::div_mod::lemma_small_mod((i + 1) as nat, n as nat);
    } else {
        vstd::arithmetic::div_mod::lemma_mod_self_0(n);
        lemma_minus_one(n);
    }
    if i > 0 {
        vstd::arithmetic::div_mod::lemma_small_mod((i - 1) as nat, n as nat);
    } else {
        vstd::arithmetic::div_mod::lemma_mod_self_0(n);
        lemma_minus_one(n);
    }
}

/// The place before the first of `n` is the last.
proof fn lemma_minus_one(n: int)
    requires
        n > 0,
    ensures
        (-1int) % n == n - 1,
{
    vstd::arithmetic::div_mod::lemma_fundamental_div_mod_converse(-1, n, -1, n - 1);
}

/// Every row shows lines of the diff.
pub open spec fn rows_within(rows: Seq<DisplayRow>, n: nat) -> bool {
    forall|k: int| 0 <= k < rows.len() ==> row_within(#[trigger] rows[k], n)
}

/// A row shows lines of the diff.
pub open spec fn row_within(row: DisplayRow, n: nat) -> bool {
    match row {
        DisplayRow::Line { idx } => idx < n,
        DisplayRow::SideLine { left, right } => (left matches Some(i) ==> i < n) && (
        right matches Some(i) ==> i < n),
        _ => true,
    }
}

/// `x` and `y` leave the same remainder where they differ by a multiple.
proof fn lemma_wrap(x: int, n: int)
    requires
        n > 0,
        x < 0,
    ensures
        x % n == (if (-x) % n == 0 {
            0
        } else {
            n - (-x) % n
        }),
{
    let q = (-x) / n;
    let r = (-x) % n;
    vstd::arithmetic::div_mod::lemma_fundamental_div_mod(-x, n);
    if r == 0 {
        assert(x == (-q) * n + 0) by (nonlinear_arith)
            requires
                -x == n * q + r,
                r == 0,
        ;
        vstd::arithmetic::div_mod::lemma_fundamental_div_mod_converse(x, n, -q, 0);
    } else {
        assert(x == (-q - 1) * n + (n - r)) by (nonlinear_arith)
            requires
                -x == n * q + r,
        ;
        vstd::arithmetic::div_mod::lemma_fundamental_div_mod_converse(x, n, -q - 1, n - r);
    }
}

/// `x` moved by `delta`, round the end of `n` places.
fn wrapped(x: usize, delta: isize, n: usize) -> (r: usize)
    requires
        n > 0,
    ensures
        r == (x + delta) % (n as int),
        r < n,
{
    let wide: i128 = x as i128 + delta as i128;
    let len: i128 = n as i128;
    if wide >= 0 {
        (wide % len) as usize
    } else {
        proof {
            lemma_wrap(wide as int, len as int);
        }
        let rest: i128 = (-wide) % len;
        if rest == 0 {
            0
        } else {
            (len - rest) as usize
        }
    }
}

impl DiffState {
    /// The ranges of lines that are in no hunk: what can be folded. The start of each is its key
    /// among the open folds.
    pub fn gaps(&self) -> (r: Vec<(usize, usize)>)
        requires
            self.deep_view().wf(),
        ensures
            ranges_view(r@) == gaps_v(self.deep_view().doc),
    {
        proof {
            reveal(DiffV::wf);
        }
        let ghost doc = self.doc.deep_view();
        let n: usize = self.doc.lines.len();
        let mut gaps: Vec<(usize, usize)> = Vec::new();
        let mut cursor: usize = 0;
        let mut k: usize = 0;
        while k < self.doc.hunks.len()
            invariant
                k <= self.doc.hunks@.len(),
                doc == self.doc.deep_view(),
                pairing::hunks_within(doc.lines, doc.hunks),
                cursor == rows::gap_start(doc.hunks, k as int),
                ranges_view(gaps@) == gaps_before(doc, k as nat),
            decreases self.doc.hunks@.len() - k,
        {
            assert(doc.hunks[k as int] == self.doc.hunks@[k as int].deep_view());
            let start: usize = self.doc.hunks[k].line_range.start;
            if start > cursor {
                let ghost before = gaps@;
                gaps.push((cursor, start));
                assert(ranges_view(gaps@) =~= ranges_view(before).push((cursor as int, start as int)));
            }
            cursor = self.doc.hunks[k].line_range.end;
            k = k + 1;
        }
        if n > cursor {
            let ghost before = gaps@;
            gaps.push((cursor, n));
            assert(ranges_view(gaps@) =~= ranges_view(before).push((cursor as int, n as int)));
        }
        gaps
    }

    /// The line shown at a row, where there is one.
    pub fn doc_line_at(&self, row: usize) -> (r: Option<usize>)
        ensures
            r == doc_line_at_v(self.deep_view().rows, row as int),
    {
        if row >= self.rows.len() {
            return None;
        }
        match self.rows[row] {
            DisplayRow::Line { idx } => Some(idx),
            DisplayRow::SideLine { left, right } => match left {
                Some(_) => left,
                None => right,
            },
            _ => None,
        }
    }

    /// The hunk at the top of the view: the last whose separator is not below the top, else the
    /// first.
    pub fn current_hunk(&self) -> (r: usize)
        ensures
            r == self.deep_view().current_hunk(),
            r < self.sep_rows@.len() || r == 0,
    {
        let mut k: usize = self.sep_rows.len();
        while k > 0
            invariant
                k <= self.sep_rows@.len(),
                current_hunk_v(self.sep_rows@, self.scroll as int, k as nat) == current_hunk_v(
                    self.sep_rows@,
                    self.scroll as int,
                    self.sep_rows@.len(),
                ),
            decreases k,
        {
            if self.sep_rows[k - 1] <= self.scroll {
                return k - 1;
            }
            k = k - 1;
        }
        0
    }

    /// The separator row of the hunk `dir` hunks on, kept within the diff.
    pub fn hunk_row(&self, dir: isize) -> (r: Option<usize>)
        ensures
            r is Some == self.deep_view().hunk_row(dir as int) is Some,
            r matches Some(row) ==> self.deep_view().hunk_row(dir as int) == Some(row as int),
    {
        if self.sep_rows.len() == 0 {
            return None;
        }
        let target: usize = moved(self.current_hunk(), dir, self.sep_rows.len() - 1);
        Some(self.sep_rows[target])
    }

    /// Scrolls by `delta` rows, within the diff.
    pub fn scroll_by(&mut self, delta: isize)
        ensures
            old(self).deep_view().wf() ==> final(self).deep_view().wf(),
            final(self).deep_view() == old(self).deep_view().scrolled(delta as int),
    {
        proof {
            reveal(DiffV::wf);
        }
        let max: usize = if self.total_rows > 0 {
            self.total_rows - 1
        } else {
            0
        };
        self.scroll = moved(self.scroll, delta, max);
    }

    /// Scrolls to a row, within the diff.
    pub fn scroll_to(&mut self, row: usize)
        ensures
            old(self).deep_view().wf() ==> final(self).deep_view().wf(),
            final(self).deep_view() == old(self).deep_view().scrolled_to(row as int),
    {
        proof {
            reveal(DiffV::wf);
        }
        let max: usize = if self.total_rows > 0 {
            self.total_rows - 1
        } else {
            0
        };
        self.scroll = if row < max {
            row
        } else {
            max
        };
    }

    /// Scrolls to the hunk `dir` hunks on.
    pub fn jump_hunk(&mut self, dir: isize)
        ensures
            old(self).deep_view().wf() ==> final(self).deep_view().wf(),
            final(self).deep_view() == old(self).deep_view().hunk_jumped(dir as int),
    {
        proof {
            reveal(DiffV::wf);
        }
        let row = self.hunk_row(dir);
        if let Some(row) = row {
            self.scroll_to(row);
        }
    }

    /// Shows the separator of a hunk.
    pub fn anchor(&mut self, hunk: usize)
        ensures
            old(self).deep_view().wf() ==> final(self).deep_view().wf(),
            final(self).deep_view() == old(self).deep_view().anchored(hunk as int),
    {
        proof {
            reveal(DiffV::wf);
        }
        self.scroll = if hunk < self.sep_rows.len() {
            self.sep_rows[hunk]
        } else {
            0
        };
    }

    /// Treats whitespace in the next way. The diff itself stays until it is loaded anew.
    pub fn set_whitespace(&mut self)
        ensures
            old(self).deep_view().wf() ==> final(self).deep_view().wf(),
            final(self).deep_view() == (DiffV {
                whitespace: old(self).deep_view().whitespace.next_v(),
                ..old(self).deep_view()
            }),
    {
        proof {
            reveal(DiffV::wf);
        }
        self.whitespace = self.whitespace.next();
    }

    /// Changes the layout and keeps the hunk at the top.
    pub fn set_mode(&mut self, mode: ViewMode)
        requires
            old(self).deep_view().wf(),
        ensures
            final(self).deep_view().wf(),
            final(self).deep_view() == old(self).deep_view().in_mode(mode),
    {
        proof {
            reveal(DiffV::wf);
        }
        let hunk: usize = self.current_hunk();
        self.mode = mode;
        self.rebuild_rows();
        self.anchor(hunk);
    }

    /// The first line of the fold that is nearest to the top of the view.
    fn nearest_fold(&self) -> (r: Option<usize>)
        ensures
            r == nearest_fold_v(self.deep_view().rows, self.deep_view().scroll),
    {
        let ghost rows = self.rows@;
        let scroll: usize = self.scroll;
        let mut best: Option<(usize, usize)> = None;
        let mut i: usize = 0;
        while i < self.rows.len()
            invariant
                i <= self.rows@.len(),
                rows == self.rows@,
                match best {
                    Some((b, start)) => {
                        &&& b < i
                        &&& rows[b as int] is Fold
                        &&& rows[b as int]->Fold_start == start
                        &&& forall|j: int|
                            0 <= j < i && (#[trigger] rows[j]) is Fold ==> apart(
                                b as int,
                                scroll as int,
                            ) <= apart(j, scroll as int) && (j < b ==> apart(
                                b as int,
                                scroll as int,
                            ) < apart(j, scroll as int))
                    },
                    None => forall|j: int| 0 <= j < i ==> !((#[trigger] rows[j]) is Fold),
                },
            decreases self.rows@.len() - i,
        {
            if let DisplayRow::Fold { start, .. } = self.rows[i] {
                let here: usize = if i < scroll {
                    scroll - i
                } else {
                    i - scroll
                };
                let nearer: bool = match best {
                    Some((b, _)) => {
                        let there: usize = if b < scroll {
                            scroll - b
                        } else {
                            b - scroll
                        };
                        here < there
                    },
                    None => true,
                };
                if nearer {
                    best = Some((i, start));
                }
            }
            i = i + 1;
        }
        match best {
            Some((b, start)) => {
                proof {
                    assert(is_nearest_fold(rows, scroll as int, b as int));
                    let c = choose|c: int| is_nearest_fold(rows, scroll as int, c);
                    assert(is_nearest_fold(rows, scroll as int, c));
                    assert(c == b) by {
                        assert(rows[c] is Fold && rows[b as int] is Fold);
                    }
                }
                Some(start)
            },
            None => None,
        }
    }

    /// Opens the fold that is nearest to the top of the view.
    pub fn expand_nearest(&mut self)
        requires
            old(self).deep_view().wf(),
        ensures
            final(self).deep_view().wf(),
            final(self).deep_view() == old(self).deep_view().fold_expanded(),
    {
        proof {
            reveal(DiffV::wf);
        }
        let nearest = self.nearest_fold();
        if let Some(start) = nearest {
            self.expanded.insert(start);
            self.rebuild_rows();
        }
    }

    /// The line nearest the top of the view.
    fn top_line(&self) -> (r: Option<usize>)
        ensures
            r == top_line_v(self.deep_view().rows, self.deep_view().scroll),
    {
        let ghost rows = self.rows@;
        let mut row: usize = self.scroll;
        while row < self.rows.len()
            invariant
                rows == self.rows@,
                line_after_v(rows, row as int) == line_after_v(rows, self.scroll as int),
            decreases self.rows@.len() - row,
        {
            let line = self.doc_line_at(row);
            if line.is_some() {
                return line;
            }
            row = row + 1;
        }
        let mut row: usize = self.scroll;
        while row > 0
            invariant
                rows == self.rows@,
                line_after_v(rows, self.scroll as int) is None,
                row <= self.scroll,
                line_before_v(rows, row as int) == line_before_v(rows, self.scroll as int),
            decreases row,
        {
            let line = self.doc_line_at(row - 1);
            if line.is_some() {
                return line;
            }
            row = row - 1;
        }
        None
    }

    /// Closes the fold that holds the line at the top of the view.
    pub fn collapse_nearest(&mut self)
        requires
            old(self).deep_view().wf(),
        ensures
            final(self).deep_view().wf(),
            final(self).deep_view() == old(self).deep_view().fold_collapsed(),
    {
        proof {
            reveal(DiffV::wf);
        }
        let line = self.top_line();
        if let Some(line) = line {
            let gaps = self.gaps();
            let ghost all = gaps_v(self.deep_view().doc);
            let mut i: usize = 0;
            while i < gaps.len()
                invariant
                    i <= gaps@.len(),
                    *self == *old(self),
                    all == ranges_view(gaps@),
                    all == gaps_v(self.deep_view().doc),
                    top_line_v(self.deep_view().rows, self.deep_view().scroll) == Some(line),
                    gap_of_v(all, line as int, i as int) == gap_of_v(all, line as int, 0),
                    self.deep_view().wf(),
                decreases gaps@.len() - i,
            {
                let (start, end) = gaps[i];
                assert(all[i as int] == (start as int, end as int));
                if start <= line && line < end {
                    proof {
                        reveal(DiffV::wf);
                    }
                    self.expanded.remove(&start);
                    self.rebuild_rows();
                    return ;
                }
                i = i + 1;
            }
        }
    }

    /// Opens all folds, or closes all.
    pub fn fold_all(&mut self, expand: bool)
        requires
            old(self).deep_view().wf(),
        ensures
            final(self).deep_view().wf(),
            final(self).deep_view() == old(self).deep_view().folded_all(expand),
    {
        proof {
            reveal(DiffV::wf);
        }
        let mut starts: HashSet<usize> = HashSet::new();
        if expand {
            let gaps = self.gaps();
            let ghost all = gaps_v(self.deep_view().doc);
            let ghost firsts = all.map_values(|g: (int, int)| g.0 as usize);
            let mut i: usize = 0;
            while i < gaps.len()
                invariant
                    i <= gaps@.len(),
                    all == ranges_view(gaps@),
                    firsts == all.map_values(|g: (int, int)| g.0 as usize),
                    starts@ == firsts.take(i as int).to_set(),
                decreases gaps@.len() - i,
            {
                let (start, _) = gaps[i];
                assert(all[i as int].0 == start);
                assert(firsts[i as int] == start);
                assert(firsts.take(i + 1) =~= firsts.take(i as int).push(start));
                starts.insert(start);
                i = i + 1;
            }
            assert(firsts.take(gaps@.len() as int) =~= firsts);
        }
        self.expanded = starts;
        self.rebuild_rows();
    }

    /// Forgets the search.
    pub fn clear_search(&mut self)
        ensures
            old(self).deep_view().wf() ==> final(self).deep_view().wf(),
            final(self).deep_view() == old(self).deep_view().unsearched(),
    {
        proof {
            reveal(DiffV::wf);
        }
        self.search = String::new();
        self.matches = Vec::new();
    }

    /// Adds a character to the search.
    pub fn search_push(&mut self, c: char)
        ensures
            old(self).deep_view().wf() ==> final(self).deep_view().wf(),
            final(self).deep_view() == (DiffV {
                search: old(self).deep_view().search.push(c),
                ..old(self).deep_view()
            }),
    {
        proof {
            reveal(DiffV::wf);
        }
        self.search.push(c);
    }

    /// Takes the last character off the search.
    pub fn search_pop(&mut self)
        ensures
            old(self).deep_view().wf() ==> final(self).deep_view().wf(),
            final(self).deep_view() == (DiffV {
                search: crate::commit::pop_v(old(self).deep_view().search),
                ..old(self).deep_view()
            }),
    {
        proof {
            reveal(DiffV::wf);
        }
        let _ = self.search.pop();
    }

    /// Does a line hold the text, whatever the case?
    fn line_matches(&self, needle: &str, idx: Option<usize>) -> (r: bool)
        requires
            idx matches Some(i) ==> i < self.doc.lines@.len(),
        ensures
            r == line_matches_v(self.deep_view().doc.lines, needle@, idx),
    {
        match idx {
            Some(i) => {
                assert(self.deep_view().doc.lines[i as int] == self.doc.lines@[i as int].deep_view());
                let lower = to_lowercase(self.doc.lines[i].content());
                contains(lower.as_str(), needle)
            },
            None => false,
        }
    }

    /// Finds the matches of the search among the rows; where `jump` is set, goes to the first from
    /// the top of the view on.
    pub fn recompute_matches(&mut self, jump: bool)
        requires
            old(self).deep_view().wf(),
        ensures
            final(self).deep_view().wf(),
            final(self).deep_view() == old(self).deep_view().rematched(jump),
    {
        proof {
            reveal(DiffV::wf);
        }
        self.matches = Vec::new();
        if self.search.as_str().is_empty() {
            return ;
        }
        let ghost d = self.deep_view();
        let ghost lines = d.doc.lines;
        let count: usize = self.doc.lines.len();
        assert(lines.len() == count);
        proof {
            coverage::lemma_rows_within(d.doc, d.expanded, d.mode == ViewMode::SideBySide);
        }
        let needle = to_lowercase(self.search.as_str());
        let mut found: Vec<usize> = Vec::new();
        let mut row: usize = 0;
        while row < self.rows.len()
            invariant
                row <= self.rows@.len(),
                d == self.deep_view(),
                lines == d.doc.lines,
                rows_within(self.rows@, lines.len()),
                found@ == matches_v(lines, needle@, self.rows@, row as nat),
            decreases self.rows@.len() - row,
        {
            let this = self.rows[row];
            assert(row_within(self.rows@[row as int], lines.len()));
            let hit: bool = match this {
                DisplayRow::Line { idx } => self.line_matches(needle.as_str(), Some(idx)),
                DisplayRow::SideLine { left, right } => self.line_matches(needle.as_str(), left)
                    || self.line_matches(needle.as_str(), right),
                _ => false,
            };
            if hit {
                found.push(row);
            }
            row = row + 1;
        }
        if jump {
            let mut i: usize = 0;
            while i < found.len() && found[i] < self.scroll
                invariant
                    i <= found@.len(),
                    first_match_v(found@, self.scroll as int, i as int) == first_match_v(
                        found@,
                        self.scroll as int,
                        0,
                    ),
                decreases found@.len() - i,
            {
                i = i + 1;
            }
            if i >= found.len() {
                i = 0;
            }
            self.match_idx = i;
            if i < found.len() {
                self.scroll = found[i];
            }
        }
        self.matches = found;
    }

    /// Goes to the match `dir` matches on, round the end.
    pub fn jump_match(&mut self, dir: isize)
        requires
            old(self).matches@.len() > 0,
        ensures
            old(self).deep_view().wf() ==> final(self).deep_view().wf(),
            final(self).deep_view() == old(self).deep_view().match_jumped(dir as int),
            final(self).match_idx < final(self).matches@.len(),
    {
        proof {
            reveal(DiffV::wf);
        }
        self.match_idx = wrapped(self.match_idx, dir, self.matches.len());
        self.scroll = self.matches[self.match_idx];
    }
}

// ---- Where motions lead ----

/// Scrolling moves by as many rows as asked for, but stays within the rows.
pub proof fn law_scrolling(d: DiffV, delta: int, row: int)
    requires
        0 <= d.scroll < d.total_rows,
        row >= 0,
    ensures
        0 <= d.scroll + delta < d.total_rows ==> d.scrolled(delta).scroll == d.scroll + delta,
        d.scroll + delta < 0 ==> d.scrolled(delta).scroll == 0,
        d.scroll + delta >= d.total_rows ==> d.scrolled(delta).scroll == d.total_rows - 1,
        row < d.total_rows ==> d.scrolled_to(row).scroll == row,
        row >= d.total_rows ==> d.scrolled_to(row).scroll == d.total_rows - 1,
        d.scrolled(delta) == (DiffV { scroll: d.scrolled(delta).scroll, ..d }),
        d.scrolled_to(row) == (DiffV { scroll: d.scrolled_to(row).scroll, ..d }),
{
}

proof fn lemma_current_hunk_at(sep_rows: Seq<usize>, scroll: int, k: nat)
    requires
        k <= sep_rows.len(),
    ensures
        ({
            let h = current_hunk_v(sep_rows, scroll, k);
            &&& 0 <= h && (k > 0 ==> h < k)
            &&& forall|j: int| h < j < k ==> (#[trigger] sep_rows[j]) > scroll
            &&& h > 0 ==> sep_rows[h] <= scroll
        }),
    decreases k,
{
    if k > 0 && sep_rows[k - 1] > scroll {
        lemma_current_hunk_at(sep_rows, scroll, (k - 1) as nat);
    }
}

/// The current hunk is the last one whose separator is at or above the top row, else the first.
pub proof fn law_current_hunk(d: DiffV)
    requires
        d.sep_rows.len() > 0,
    ensures
        0 <= d.current_hunk() < d.sep_rows.len(),
        forall|j: int|
            d.current_hunk() < j < d.sep_rows.len() ==> (#[trigger] d.sep_rows[j]) > d.scroll,
        d.current_hunk() > 0 ==> d.sep_rows[d.current_hunk()] <= d.scroll,
{
    lemma_current_hunk_at(d.sep_rows, d.scroll, d.sep_rows.len());
}

proof fn lemma_first_match(matches: Seq<usize>, scroll: int, i: int)
    requires
        0 <= i <= matches.len(),
    ensures
        ({
            let k = first_match_v(matches, scroll, i);
            &&& (exists|j: int| i <= j < matches.len() && (#[trigger] matches[j]) >= scroll) ==> i
                <= k < matches.len() && matches[k] >= scroll && forall|j: int|
                i <= j < k ==> (#[trigger] matches[j]) < scroll
            &&& (forall|j: int| i <= j < matches.len() ==> (#[trigger] matches[j]) < scroll) ==> k
                == 0
        }),
    decreases matches.len() - i,
{
    if i < matches.len() && matches[i] < scroll {
        lemma_first_match(matches, scroll, i + 1);
        if exists|j: int| i <= j < matches.len() && (#[trigger] matches[j]) >= scroll {
            let j = choose|j: int| i <= j < matches.len() && (#[trigger] matches[j]) >= scroll;
            assert(i + 1 <= j);
        }
    }
}

/// A search that jumps goes to the first match at or below the top row, else to the first of all;
/// where nothing matches it stays.
pub proof fn law_search_jumps(d: DiffV)
    requires
        d.search.len() > 0,
        d.rows.len() <= usize::MAX,
    ensures
        ({
            let e = d.rematched(true);
            &&& e.matches.len() == 0 ==> e.scroll == d.scroll
            &&& e.matches.len() > 0 ==> 0 <= e.match_idx < e.matches.len() && e.scroll
                == e.matches[e.match_idx]
            &&& forall|j: int|
                0 <= j < e.match_idx ==> (#[trigger] e.matches[j]) < d.scroll
            &&& e.matches.len() > 0 && e.scroll < d.scroll ==> e.match_idx == 0 && forall|j: int|
                0 <= j < e.matches.len() ==> (#[trigger] e.matches[j]) < d.scroll
            &&& d.rematched(false).scroll == d.scroll
            &&& e.doc == d.doc && e.rows == d.rows && e.search == d.search
        }),
        d.unsearched().search.len() == 0,
        d.unsearched().matches.len() == 0,
        d.unsearched().scroll == d.scroll,
{
    let matches = matches_v(d.doc.lines, text::lowercase(d.search), d.rows, d.rows.len());
    lemma_first_match(matches, d.scroll, 0);
    let k = first_match_v(matches, d.scroll, 0);
    if matches.len() > 0 {
        if exists|j: int| 0 <= j < matches.len() && (#[trigger] matches[j]) >= d.scroll {
        } else {
            assert forall|j: int| 0 <= j < matches.len() implies (#[trigger] matches[j])
                < d.scroll by {}
        }
    }
}

proof fn lemma_gaps_before(doc: FileDiffV, k: nat, line: int)
    requires
        coverage::laid_out(doc),
        k <= doc.hunks.len(),
    ensures
        (exists|i: int|
            0 <= i < gaps_before(doc, k).len() && (#[trigger] gaps_before(doc, k)[i]).0 <= line
                < gaps_before(doc, k)[i].1) <==> 0 <= line < rows::gap_start(doc.hunks, k as int)
            && forall|h: int| 0 <= h < k ==> !#[trigger] diff::in_hunk(doc.hunks[h], line),
        forall|i: int|
            0 <= i < gaps_before(doc, k).len() ==> (#[trigger] gaps_before(doc, k)[i]).1
                <= rows::gap_start(doc.hunks, k as int),
    decreases k,
{
    let all = gaps_before(doc, k);
    if k > 0 {
        let p = (k - 1) as nat;
        lemma_gaps_before(doc, p, line);
        let before = gaps_before(doc, p);
        let start = rows::gap_start(doc.hunks, k - 1);
        let h = doc.hunks[k - 1];
        if p > 0 {
            assert(doc.hunks[p - 1].end <= doc.hunks[p as int].start);
        }
        assert(start <= h.start <= h.end);
        if exists|i: int| 0 <= i < all.len() && (#[trigger] all[i]).0 <= line < all[i].1 {
            let i = choose|i: int| 0 <= i < all.len() && (#[trigger] all[i]).0 <= line < all[i].1;
            if i < before.len() {
                assert(before[i] == all[i]);
                assert forall|m: int| 0 <= m < k implies !#[trigger] diff::in_hunk(
                    doc.hunks[m],
                    line,
                ) by {}
            } else {
                assert forall|m: int| 0 <= m < k implies !#[trigger] diff::in_hunk(
                    doc.hunks[m],
                    line,
                ) by {
                    if m < p - 1 {
                        assert(doc.hunks[m].end <= doc.hunks[p - 1].start);
                    }
                }
            }
        }
        if 0 <= line < rows::gap_start(doc.hunks, k as int) && forall|m: int|
            0 <= m < k ==> !#[trigger] diff::in_hunk(doc.hunks[m], line) {
            assert(!diff::in_hunk(h, line));
            if line < start {
                let i = choose|i: int|
                    0 <= i < before.len() && (#[trigger] before[i]).0 <= line < before[i].1;
                assert(all[i] == before[i]);
            } else {
                assert(line < h.start);
                assert(all[before.len() as int] == (start, h.start));
            }
        }
        assert forall|i: int| 0 <= i < all.len() implies (#[trigger] all[i]).1 <= h.end by {
            if i < before.len() {
                assert(all[i] == before[i]);
            }
        }
    }
}

/// What can be folded is what no hunk holds: each line is in a gap exactly where it is in no hunk.
pub proof fn law_gaps(doc: FileDiffV, line: int)
    requires
        coverage::laid_out(doc),
        0 <= line < doc.lines.len(),
    ensures
        (exists|i: int|
            0 <= i < gaps_v(doc).len() && (#[trigger] gaps_v(doc)[i]).0 <= line
                < gaps_v(doc)[i].1) <==> forall|h: int|
            0 <= h < doc.hunks.len() ==> !#[trigger] diff::in_hunk(doc.hunks[h], line),
{
    let n = doc.hunks.len();
    lemma_gaps_before(doc, n, line);
    let before = gaps_before(doc, n);
    let all = gaps_v(doc);
    let start = rows::gap_start(doc.hunks, n as int);
    if exists|i: int| 0 <= i < all.len() && (#[trigger] all[i]).0 <= line < all[i].1 {
        let i = choose|i: int| 0 <= i < all.len() && (#[trigger] all[i]).0 <= line < all[i].1;
        if i < before.len() {
            assert(before[i] == all[i]);
        } else {
            assert forall|m: int| 0 <= m < n implies !#[trigger] diff::in_hunk(
                doc.hunks[m],
                line,
            ) by {
                if m < n - 1 {
                    assert(doc.hunks[m].end <= doc.hunks[n - 1].start);
                }
            }
        }
    }
    if forall|h: int| 0 <= h < n ==> !#[trigger] diff::in_hunk(doc.hunks[h], line) {
        if line < start {
            let i = choose|i: int|
                0 <= i < before.len() && (#[trigger] before[i]).0 <= line < before[i].1;
            assert(all[i] == before[i]);
        } else {
            assert(all[before.len() as int] == (start, doc.lines.len() as int));
        }
    }
}

proof fn lemma_gap_of(gaps: Seq<(int, int)>, line: int, i: int)
    requires
        0 <= i <= gaps.len(),
    ensures
        gap_of_v(gaps, line, i) matches Some(start) ==> exists|k: int|
            i <= k < gaps.len() && (#[trigger] gaps[k]).0 == start && start <= line < gaps[k].1,
        gap_of_v(gaps, line, i) is None ==> forall|k: int|
            i <= k < gaps.len() ==> !((#[trigger] gaps[k]).0 <= line < gaps[k].1),
    decreases gaps.len() - i,
{
    if i < gaps.len() {
        if gaps[i].0 <= line < gaps[i].1 {
            assert(gaps[i].0 <= line);
        } else {
            lemma_gap_of(gaps, line, i + 1);
        }
    }
}

/// Closing a fold closes the one that holds the first line from the top row on, or else the last
/// line above it; where that line is in a hunk, nothing changes.
pub proof fn law_fold_closes(d: DiffV, line: usize)
    requires
        coverage::laid_out(d.doc),
        d.doc.lines.len() <= usize::MAX,
        top_line_v(d.rows, d.scroll) == Some(line),
        line < d.doc.lines.len(),
    ensures
        (exists|h: int|
            0 <= h < d.doc.hunks.len() && #[trigger] diff::in_hunk(d.doc.hunks[h], line as int))
            ==> d.fold_collapsed() == d,
        !(exists|h: int|
            0 <= h < d.doc.hunks.len() && #[trigger] diff::in_hunk(d.doc.hunks[h], line as int))
            ==> exists|k: int|
            0 <= k < gaps_v(d.doc).len() && (#[trigger] gaps_v(d.doc)[k]).0 <= line
                < gaps_v(d.doc)[k].1 && d.fold_collapsed() == (DiffV {
                expanded: d.expanded.remove(gaps_v(d.doc)[k].0 as usize),
                ..d
            }).rebuilt(),
{
    let gaps = gaps_v(d.doc);
    law_gaps(d.doc, line as int);
    lemma_gap_of(gaps, line as int, 0);
    match gap_of_v(gaps, line as int, 0) {
        Some(start) => {
            let k = choose|k: int|
                0 <= k < gaps.len() && (#[trigger] gaps[k]).0 == start && start <= line
                    < gaps[k].1;
            assert(gaps[k].0 <= line < gaps[k].1);
        },
        None => {},
    }
}

proof fn lemma_line_after(rows: Seq<DisplayRow>, row: int)
    requires
        0 <= row,
    ensures
        line_after_v(rows, row) matches Some(x) ==> exists|k: int|
            row <= k < rows.len() && row_line_v(#[trigger] rows[k]) == Some(x) && forall|j: int|
                row <= j < k ==> row_line_v(#[trigger] rows[j]) is None,
        line_after_v(rows, row) is None ==> forall|j: int|
            row <= j < rows.len() ==> row_line_v(#[trigger] rows[j]) is None,
    decreases rows.len() - row,
{
    if row < rows.len() {
        if doc_line_at_v(rows, row) is Some {
            assert(row_line_v(rows[row]) is Some);
        } else {
            lemma_line_after(rows, row + 1);
        }
    }
}

proof fn lemma_line_before(rows: Seq<DisplayRow>, row: int)
    requires
        0 <= row <= rows.len(),
    ensures
        line_before_v(rows, row) matches Some(x) ==> exists|k: int|
            0 <= k < row && row_line_v(#[trigger] rows[k]) == Some(x) && forall|j: int|
                k < j < row ==> row_line_v(#[trigger] rows[j]) is None,
        line_before_v(rows, row) is None ==> forall|j: int|
            0 <= j < row ==> row_line_v(#[trigger] rows[j]) is None,
    decreases row,
{
    if row > 0 {
        if doc_line_at_v(rows, row - 1) is Some {
            assert(row_line_v(rows[row - 1]) is Some);
        } else {
            lemma_line_before(rows, row - 1);
        }
    }
}

/// The line at the top: that of the first row from the top on that shows a line, else that of the
/// last row above; of two in a row, the left one.
pub proof fn law_top_line(rows: Seq<DisplayRow>, scroll: int)
    requires
        0 <= scroll <= rows.len(),
    ensures
        (forall|j: int| 0 <= j < rows.len() ==> row_line_v(#[trigger] rows[j]) is None)
            ==> top_line_v(rows, scroll) is None,
        (exists|j: int| scroll <= j < rows.len() && row_line_v(#[trigger] rows[j]) is Some)
            ==> exists|k: int|
            scroll <= k < rows.len() && row_line_v(#[trigger] rows[k]) is Some && top_line_v(
                rows,
                scroll,
            ) == row_line_v(rows[k]) && forall|j: int|
                scroll <= j < k ==> row_line_v(#[trigger] rows[j]) is None,
        (forall|j: int| scroll <= j < rows.len() ==> row_line_v(#[trigger] rows[j]) is None) && (
        exists|j: int| 0 <= j < scroll && row_line_v(#[trigger] rows[j]) is Some) ==> exists|
            k: int,
        |
            0 <= k < scroll && row_line_v(#[trigger] rows[k]) is Some && top_line_v(rows, scroll)
                == row_line_v(rows[k]) && forall|j: int|
                k < j < scroll ==> row_line_v(#[trigger] rows[j]) is None,
        forall|l: usize, r: Option<usize>|
            #[trigger] row_line_v(DisplayRow::SideLine { left: Some(l), right: r }) == Some(l),
        forall|r: Option<usize>|
            #[trigger] row_line_v(DisplayRow::SideLine { left: None, right: r }) == r,
{
    lemma_line_after(rows, scroll);
    lemma_line_before(rows, scroll);
}

} // verus!
