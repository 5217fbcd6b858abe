//! The diff view of one file: its display rows, folds and hunks.
use std::collections::{HashMap, HashSet};
use vstd::prelude::*;

use crate::app::coverage;
use crate::app::pairing;
use crate::app::pairing::{run_rows};
use crate::git::model::{DiffLine, FileDiff, FileDiffV, HunkV, LineV};
use crate::style::Style;
use crate::syntax::{Seg, Verb};

verus! {

broadcast use {vstd::seq_lib::group_seq_properties, vstd::std_specs::hash::group_hash_axioms};

/// One column or two.
#[derive(Clone, Copy, PartialEq, Eq, Debug, Structural)]
pub enum ViewMode {
    Unified,
    SideBySide,
}

/// What becomes of whitespace-only changes: `Show` draws them as any, `Dim` draws them dimmed,
/// `Ignore` diffs without them.
#[derive(Clone, Copy, PartialEq, Eq, Debug, Structural)]
pub enum Whitespace {
    Show,
    Dim,
    Ignore,
}

impl Whitespace {
    /// The word for a setting.
    pub open spec fn label_v(self) -> Seq<char> {
        match self {
            Whitespace::Show => "show"@,
            Whitespace::Dim => "dim"@,
            Whitespace::Ignore => "ignore"@,
        }
    }

    /// The setting after another.
    pub open spec fn next_v(self) -> Whitespace {
        match self {
            Whitespace::Show => Whitespace::Dim,
            Whitespace::Dim => Whitespace::Ignore,
            Whitespace::Ignore => Whitespace::Show,
        }
    }

    pub fn label(self) -> (r: &'static str)
        ensures
            r@ == self.label_v(),
    {
        match self {
            Whitespace::Show => "show",
            Whitespace::Dim => "dim",
            Whitespace::Ignore => "ignore",
        }
    }

    pub fn next(self) -> (r: Whitespace)
        ensures
            r == self.next_v(),
    {
        match self {
            Whitespace::Show => Whitespace::Dim,
            Whitespace::Dim => Whitespace::Ignore,
            Whitespace::Ignore => Whitespace::Show,
        }
    }
}

/// Cycling through the whitespace settings visits each and comes back.
pub proof fn law_whitespace_cycle(w: Whitespace)
    ensures
        w.next_v().next_v().next_v() == w,
        w.next_v() != w,
        w.next_v().next_v() != w,
{
}

/// One row of the diff. Indices are those of [`FileDiff::lines`] and [`FileDiff::hunks`].
#[derive(Clone, Copy, Debug)]
pub enum DisplayRow {
    /// The separator before a hunk.
    HunkSep { hunk: usize },
    /// `hidden` unchanged lines, folded, from line `start` on.
    Fold { start: usize, hidden: usize },
    /// One column: a line.
    Line { idx: usize },
    /// Two columns: a line of the old side, one of the new side, or both. A context line stands on
    /// both.
    SideLine { left: Option<usize>, right: Option<usize> },
}

/// A file that refers to symbols of the shown one.
#[derive(Debug)]
pub struct RelatedEntry {
    pub file_index: usize,
    pub verb: Verb,
    /// How many of the shown file's symbols it refers to.
    pub count: usize,
    /// One of them.
    pub sample: String,
}

/// The mathematical value of a [`RelatedEntry`].
#[verifier::ext_equal]
pub ghost struct RelatedV {
    pub file_index: int,
    pub verb: Verb,
    pub count: int,
    pub sample: Seq<char>,
}

impl DeepView for RelatedEntry {
    type V = RelatedV;

    open spec fn deep_view(&self) -> RelatedV {
        RelatedV {
            file_index: self.file_index as int,
            verb: self.verb,
            count: self.count as int,
            sample: self.sample@,
        }
    }
}

/// The diff view of the open file.
pub struct DiffState {
    /// The first visible row.
    pub scroll: usize,
    pub doc: FileDiff,
    /// Which file of the changeset is open.
    pub file_index: usize,
    /// The folds that are open, by their first line.
    pub expanded: HashSet<usize>,
    /// The rows, made anew when the diff, the folds or the layout change.
    pub rows: Vec<DisplayRow>,
    /// The row of each hunk's separator.
    pub sep_rows: Vec<usize>,
    pub viewport_rows: usize,
    pub total_rows: usize,
    pub mode: ViewMode,
    pub whitespace: Whitespace,
    /// The highlighted source lines of both sides, where the language is known.
    pub old_hl: Option<Vec<Vec<Seg>>>,
    pub new_hl: Option<Vec<Vec<Seg>>>,
    /// Files of the changeset that refer to this one's symbols.
    pub related: Vec<RelatedEntry>,
    /// The characters that changed in each line that is paired with another.
    pub intra: HashMap<usize, HashSet<usize>>,
    /// The lines whose change is whitespace only.
    pub ws_only: HashSet<usize>,
    /// What is searched for; empty for no search.
    pub search: String,
    /// The rows that match, in order.
    pub matches: Vec<usize>,
    /// The current one of them.
    pub match_idx: usize,
}

/// The mathematical value of a [`DiffState`].
#[verifier::ext_equal]
pub ghost struct DiffV {
    pub scroll: int,
    pub doc: FileDiffV,
    pub file_index: int,
    pub expanded: Set<usize>,
    pub rows: Seq<DisplayRow>,
    pub sep_rows: Seq<usize>,
    pub viewport_rows: int,
    pub total_rows: int,
    pub mode: ViewMode,
    pub whitespace: Whitespace,
    pub old_hl: Option<Seq<Seq<(Seq<char>, Style)>>>,
    pub new_hl: Option<Seq<Seq<(Seq<char>, Style)>>>,
    pub related: Seq<RelatedV>,
    pub intra: Map<usize, Set<usize>>,
    pub ws_only: Set<usize>,
    pub search: Seq<char>,
    pub matches: Seq<usize>,
    pub match_idx: int,
}

impl DeepView for DiffState {
    type V = DiffV;

    open spec fn deep_view(&self) -> DiffV {
        DiffV {
            scroll: self.scroll as int,
            doc: self.doc.deep_view(),
            file_index: self.file_index as int,
            expanded: self.expanded@,
            rows: self.rows@,
            sep_rows: self.sep_rows@,
            viewport_rows: self.viewport_rows as int,
            total_rows: self.total_rows as int,
            mode: self.mode,
            whitespace: self.whitespace,
            old_hl: self.old_hl.deep_view(),
            new_hl: self.new_hl.deep_view(),
            related: self.related.deep_view(),
            intra: pairing::intra_view(self.intra@),
            ws_only: self.ws_only@,
            search: self.search@,
            matches: self.matches@,
            match_idx: self.match_idx as int,
        }
    }
}

// ---- Rows ----

/// The row of a context line.
pub open spec fn context_row_v(side: bool, i: int) -> DisplayRow {
    if side {
        DisplayRow::SideLine { left: Some(i as usize), right: Some(i as usize) }
    } else {
        DisplayRow::Line { idx: i as usize }
    }
}

/// The rows of the unchanged lines from `start` to `end` between hunks: a fold, or the lines where
/// it is open.
pub open spec fn gap_rows_v(expanded: Set<usize>, side: bool, start: int, end: int) -> Seq<
    DisplayRow,
> {
    if end <= start {
        Seq::empty()
    } else if expanded.contains(start as usize) {
        Seq::new((end - start) as nat, |i: int| context_row_v(side, start + i))
    } else {
        seq![DisplayRow::Fold { start: start as usize, hidden: (end - start) as usize }]
    }
}

/// Rows of two columns for paired cells.
pub open spec fn side_cells_v(cells: Seq<(Option<usize>, Option<usize>)>) -> Seq<DisplayRow> {
    cells.map_values(
        |c: (Option<usize>, Option<usize>)| DisplayRow::SideLine { left: c.0, right: c.1 },
    )
}

/// The rows of two columns for the lines from `i` to `end`: context lines on both sides, and each
/// run of changes paired by similarity.
pub open spec fn side_rows_v(lines: Seq<LineV>, i: int, end: int) -> Seq<DisplayRow>
    decreases end - i,
{
    if i >= end {
        Seq::empty()
    } else if !lines[i].is_change() {
        seq![context_row_v(true, i)] + side_rows_v(lines, i + 1, end)
    } else {
        proof {
            pairing::lemma_change_end(lines, i, end);
        }
        let e = pairing::change_end(lines, i, end);
        side_cells_v(pairing::run_rows_v(lines, i, e)) + side_rows_v(lines, e, end)
    }
}

/// The rows of a hunk's lines.
pub open spec fn hunk_rows_v(lines: Seq<LineV>, side: bool, start: int, end: int) -> Seq<
    DisplayRow,
> {
    if side {
        side_rows_v(lines, start, end)
    } else {
        Seq::new(
            if end > start {
                (end - start) as nat
            } else {
                0
            },
            |i: int| DisplayRow::Line { idx: (start + i) as usize },
        )
    }
}

/// Where the lines before hunk `k` that no hunk has end up: the end of the hunk before it.
pub open spec fn gap_start(hunks: Seq<HunkV>, k: int) -> int {
    if k <= 0 {
        0
    } else {
        hunks[k - 1].end
    }
}

/// The rows before the separator of hunk `k`.
pub open spec fn rows_before(doc: FileDiffV, expanded: Set<usize>, side: bool, k: nat) -> Seq<
    DisplayRow,
>
    decreases k, 0nat,
{
    rows_upto(doc, expanded, side, k) + gap_rows_v(
        expanded,
        side,
        gap_start(doc.hunks, k as int),
        doc.hunks[k as int].start,
    )
}

/// The rows through the first `k` hunks.
pub open spec fn rows_upto(doc: FileDiffV, expanded: Set<usize>, side: bool, k: nat) -> Seq<
    DisplayRow,
>
    decreases k,
{
    if k == 0 {
        Seq::empty()
    } else {
        let h = doc.hunks[k - 1];
        (rows_upto(doc, expanded, side, (k - 1) as nat) + gap_rows_v(
            expanded,
            side,
            gap_start(doc.hunks, k - 1),
            h.start,
        )).push(DisplayRow::HunkSep { hunk: (k - 1) as usize }) + hunk_rows_v(
            doc.lines,
            side,
            h.start,
            h.end,
        )
    }
}

/// All rows of a diff.
pub open spec fn rows_v(doc: FileDiffV, expanded: Set<usize>, side: bool) -> Seq<DisplayRow> {
    let n = doc.hunks.len();
    rows_upto(doc, expanded, side, n) + gap_rows_v(
        expanded,
        side,
        gap_start(doc.hunks, n as int),
        doc.lines.len() as int,
    )
}

/// The row of each hunk's separator.
pub open spec fn sep_rows_v(doc: FileDiffV, expanded: Set<usize>, side: bool) -> Seq<usize> {
    Seq::new(doc.hunks.len(), |k: int| rows_before(doc, expanded, side, k as nat).len() as usize)
}

impl DiffV {
    /// The rows are those of the diff, its open folds and the layout; the hunks hold all changes,
    /// one after the other.
    #[verifier::opaque]
    pub open spec fn wf(self) -> bool {
        let side = self.mode == ViewMode::SideBySide;
        &&& coverage::laid_out(self.doc)
        &&& self.rows == rows_v(self.doc, self.expanded, side)
        &&& self.sep_rows == sep_rows_v(self.doc, self.expanded, side)
        &&& self.total_rows == self.rows.len()
    }

    /// The state with its rows made anew.
    pub open spec fn rebuilt(self) -> DiffV {
        let side = self.mode == ViewMode::SideBySide;
        let rows = rows_v(self.doc, self.expanded, side);
        DiffV {
            rows,
            sep_rows: sep_rows_v(self.doc, self.expanded, side),
            total_rows: rows.len() as int,
            ..self
        }
    }
}

/// Appends the rows of the unchanged lines from `start` to `end` between hunks.
fn emit_gap(
    rows: &mut Vec<DisplayRow>,
    expanded: &HashSet<usize>,
    side: bool,
    start: usize,
    end: usize,
)
    ensures
        final(rows)@ == old(rows)@ + gap_rows_v(expanded@, side, start as int, end as int),
{
    if end <= start {
        assert(rows@ =~= old(rows)@ + gap_rows_v(expanded@, side, start as int, end as int));
        return ;
    }
    if expanded.contains(&start) {
        let ghost want = gap_rows_v(expanded@, side, start as int, end as int);
        let mut idx: usize = start;
        while idx < end
            invariant
                start <= idx <= end,
                want == Seq::new((end - start) as nat, |i: int| context_row_v(side, start + i)),
                rows@ =~= old(rows)@ + want.take(idx - start),
            decreases end - idx,
        {
            if side {
                rows.push(DisplayRow::SideLine { left: Some(idx), right: Some(idx) });
            } else {
                rows.push(DisplayRow::Line { idx });
            }
            idx = idx + 1;
        }
        assert(want.take(end - start) =~= want);
    } else {
        rows.push(DisplayRow::Fold { start, hidden: end - start });
        assert(rows@ =~= old(rows)@ + gap_rows_v(expanded@, side, start as int, end as int));
    }
}

/// Appends the rows of two columns for the lines from `start` to `end`.
fn emit_side_lines(rows: &mut Vec<DisplayRow>, lines: &Vec<DiffLine>, start: usize, end: usize)
    requires
        start <= end <= lines@.len(),
    ensures
        final(rows)@ == old(rows)@ + side_rows_v(lines.deep_view(), start as int, end as int),
{
    let ghost ls = lines.deep_view();
    let ghost all = side_rows_v(ls, start as int, end as int);
    let ghost base = rows@;
    let mut i: usize = start;
    assert(rows@ + side_rows_v(ls, i as int, end as int) =~= base + all);
    while i < end
        invariant
            start <= i <= end <= lines@.len(),
            ls == lines.deep_view(),
            rows@ + side_rows_v(ls, i as int, end as int) =~= base + all,
        decreases end - i,
    {
        let ghost before = rows@;
        assert(ls[i as int] == lines@[i as int].deep_view());
        if !lines[i].is_change() {
            rows.push(DisplayRow::SideLine { left: Some(i), right: Some(i) });
            assert(rows@ =~= before + seq![context_row_v(true, i as int)]);
            i = i + 1;
        } else {
            let run_start: usize = i;
            while i < end && lines[i].is_change()
                invariant
                    run_start <= i <= end <= lines@.len(),
                    ls == lines.deep_view(),
                    run_start == i ==> i < end && ls[i as int].is_change(),
                    pairing::change_end(ls, run_start as int, end as int) == pairing::change_end(
                        ls,
                        i as int,
                        end as int,
                    ),
                decreases end - i,
            {
                assert(ls[i as int] == lines@[i as int].deep_view());
                i = i + 1;
            }
            if i < end {
                assert(ls[i as int] == lines@[i as int].deep_view());
            }
            let cells = run_rows(lines, run_start, i);
            let ghost want = side_cells_v(cells@);
            let mut k: usize = 0;
            while k < cells.len()
                invariant
                    k <= cells@.len(),
                    want == side_cells_v(cells@),
                    rows@ =~= before + want.take(k as int),
                decreases cells@.len() - k,
            {
                let (left, right) = cells[k];
                rows.push(DisplayRow::SideLine { left, right });
                k = k + 1;
            }
            assert(want.take(cells@.len() as int) =~= want);
        }
    }
    assert(side_rows_v(ls, end as int, end as int) =~= Seq::empty());
    assert(rows@ =~= base + all);
}

impl DiffState {
    /// Makes the rows anew from the diff, the open folds and the layout. (In two columns a removed
    /// and an added line share a row where they are paired.)
    pub fn rebuild_rows(&mut self)
        requires
            pairing::hunks_within(old(self).deep_view().doc.lines, old(self).deep_view().doc.hunks),
        ensures
            final(self).deep_view() == old(self).deep_view().rebuilt(),
    {
        let ghost doc = self.doc.deep_view();
        let ghost ex = self.expanded@;
        let side: bool = matches!(self.mode, ViewMode::SideBySide);
        let mut rows: Vec<DisplayRow> = Vec::new();
        let mut sep_rows: Vec<usize> = Vec::new();
        let n: usize = self.doc.lines.len();
        let mut cursor: usize = 0;
        let mut k: usize = 0;
        while k < self.doc.hunks.len()
            invariant
                k <= self.doc.hunks@.len(),
                n == self.doc.lines@.len(),
                doc == self.doc.deep_view(),
                ex == self.expanded@,
                pairing::hunks_within(doc.lines, doc.hunks),
                cursor == gap_start(doc.hunks, k as int),
                rows@ == rows_upto(doc, ex, side, k as nat),
                sep_rows@ =~= sep_rows_v(doc, ex, side).take(k as int),
                self.deep_view() == old(self).deep_view(),
            decreases self.doc.hunks@.len() - k,
        {
            let ghost h = doc.hunks[k as int];
            assert(h == self.doc.hunks@[k as int].deep_view());
            let start: usize = self.doc.hunks[k].line_range.start;
            let end: usize = self.doc.hunks[k].line_range.end;
            emit_gap(&mut rows, &self.expanded, side, cursor, start);
            assert(rows@ == rows_before(doc, ex, side, k as nat));
            sep_rows.push(rows.len());
            rows.push(DisplayRow::HunkSep { hunk: k });
            let ghost top = rows@;
            if side {
                emit_side_lines(&mut rows, &self.doc.lines, start, end);
            } else {
                let mut idx: usize = start;
                while idx < end
                    invariant
                        start <= idx <= end,
                        rows@ =~= top + hunk_rows_v(
                            doc.lines,
                            false,
                            start as int,
                            idx as int,
                        ),
                    decreases end - idx,
                {
                    rows.push(DisplayRow::Line { idx });
                    idx = idx + 1;
                }
            }
            assert(rows@ =~= rows_upto(doc, ex, side, (k + 1) as nat));
            cursor = end;
            k = k + 1;
        }
        assert(sep_rows_v(doc, ex, side).take(doc.hunks.len() as int) =~= sep_rows_v(
            doc,
            ex,
            side,
        ));
        emit_gap(&mut rows, &self.expanded, side, cursor, n);
        self.total_rows = rows.len();
        self.rows = rows;
        self.sep_rows = sep_rows;
    }
}

// ---- Separators ----

/// None of the rows is a separator.
pub open spec fn no_separators(rows: Seq<DisplayRow>) -> bool {
    forall|i: int| 0 <= i < rows.len() ==> !((#[trigger] rows[i]) is HunkSep)
}

/// Where the separator of hunk `k` stands.
pub open spec fn sep_at(doc: FileDiffV, expanded: Set<usize>, side: bool, k: int) -> int {
    rows_before(doc, expanded, side, k as nat).len() as int
}

proof fn lemma_side_has_no_separators(lines: Seq<LineV>, i: int, end: int)
    ensures
        no_separators(side_rows_v(lines, i, end)),
    decreases end - i,
{
    if i < end {
        if !lines[i].is_change() {
            lemma_side_has_no_separators(lines, i + 1, end);
        } else {
            pairing::lemma_change_end(lines, i, end);
            lemma_side_has_no_separators(lines, pairing::change_end(lines, i, end), end);
        }
    }
}

/// Through the first `k` hunks, the separators stand where the rows before them end, one after the
/// other, and nowhere else.
proof fn lemma_separators(doc: FileDiffV, expanded: Set<usize>, side: bool, k: nat)
    ensures
        forall|j: int|
            0 <= j < k ==> 0 <= #[trigger] sep_at(doc, expanded, side, j) < rows_upto(
                doc,
                expanded,
                side,
                k,
            ).len() && rows_upto(doc, expanded, side, k)[sep_at(doc, expanded, side, j)] == (
            DisplayRow::HunkSep { hunk: j as usize }),
        forall|j: int, l: int|
            0 <= j < l < k ==> #[trigger] sep_at(doc, expanded, side, j) < #[trigger] sep_at(
                doc,
                expanded,
                side,
                l,
            ),
        forall|i: int|
            0 <= i < rows_upto(doc, expanded, side, k).len() && (#[trigger] rows_upto(
                doc,
                expanded,
                side,
                k,
            )[i]) is HunkSep ==> exists|j: int|
                0 <= j < k && #[trigger] sep_at(doc, expanded, side, j) == i,
    decreases k,
{
    if k > 0 {
        let p = (k - 1) as nat;
        let h = doc.hunks[p as int];
        lemma_separators(doc, expanded, side, p);
        let head = rows_upto(doc, expanded, side, p);
        let gap = gap_rows_v(expanded, side, gap_start(doc.hunks, p as int), h.start);
        let body = hunk_rows_v(doc.lines, side, h.start, h.end);
        let all = rows_upto(doc, expanded, side, k);
        if side {
            lemma_side_has_no_separators(doc.lines, h.start, h.end);
        }
        assert(no_separators(gap));
        assert(no_separators(body));
        assert(all == (head + gap).push(DisplayRow::HunkSep { hunk: p as usize }) + body);
        assert(sep_at(doc, expanded, side, p as int) == head.len() + gap.len());
        assert forall|i: int| 0 <= i < all.len() && (#[trigger] all[i]) is HunkSep implies exists|
            j: int,
        |
            0 <= j < k && #[trigger] sep_at(doc, expanded, side, j) == i by {
            if i < head.len() {
                assert(all[i] == head[i]);
                let j = choose|j: int| 0 <= j < p && #[trigger] sep_at(doc, expanded, side, j) == i;
                assert(0 <= j < k && sep_at(doc, expanded, side, j) == i);
            } else if i < head.len() + gap.len() {
                assert(all[i] == gap[i - head.len()]);
            } else if i > head.len() + gap.len() {
                assert(all[i] == body[i - head.len() - gap.len() - 1]);
            } else {
                assert(0 <= p < k && sep_at(doc, expanded, side, p as int) == i);
            }
        }
    }
}

/// Making the rows anew touches the rows, the separators' places and the number of rows alone, and
/// doing it again changes nothing. The number is that of the rows; each hunk has one separator, in
/// order, at the place that is noted for it; and no other row is a separator.
pub proof fn law_rebuilt_rows(d: DiffV)
    requires
        d.rebuilt().rows.len() <= usize::MAX,
    ensures
        ({
            let r = d.rebuilt();
            &&& r == (DiffV {
                rows: r.rows,
                sep_rows: r.sep_rows,
                total_rows: r.total_rows,
                ..d
            })
            &&& r.rebuilt() == r
            &&& r.total_rows == r.rows.len()
            &&& r.sep_rows.len() == r.doc.hunks.len()
            &&& forall|k: int, l: int|
                0 <= k < l < r.sep_rows.len() ==> (#[trigger] r.sep_rows[k]) < (
                #[trigger] r.sep_rows[l])
            &&& forall|k: int|
                0 <= k < r.sep_rows.len() ==> (#[trigger] r.sep_rows[k]) < r.rows.len()
                    && r.rows[r.sep_rows[k] as int] == (DisplayRow::HunkSep { hunk: k as usize })
            &&& forall|i: int|
                0 <= i < r.rows.len() && (#[trigger] r.rows[i]) is HunkSep ==> exists|k: int|
                    0 <= k < r.sep_rows.len() && #[trigger] r.sep_rows[k] == i
        }),
{
    let r = d.rebuilt();
    let side = d.mode == ViewMode::SideBySide;
    let n = d.doc.hunks.len();
    let upto = rows_upto(d.doc, d.expanded, side, n);
    let gap = gap_rows_v(
        d.expanded,
        side,
        gap_start(d.doc.hunks, n as int),
        d.doc.lines.len() as int,
    );
    lemma_separators(d.doc, d.expanded, side, n);
    assert(no_separators(gap));
    assert(r.rows == upto + gap);
    assert forall|k: int| 0 <= k < n implies #[trigger] r.sep_rows[k] == sep_at(
        d.doc,
        d.expanded,
        side,
        k,
    ) && r.rows[sep_at(d.doc, d.expanded, side, k)] == (DisplayRow::HunkSep { hunk: k as usize }) by {
        assert(0 <= sep_at(d.doc, d.expanded, side, k) < upto.len());
    }
    assert forall|k: int, l: int| 0 <= k < l < n implies (#[trigger] r.sep_rows[k]) < (
    #[trigger] r.sep_rows[l]) by {
        assert(sep_at(d.doc, d.expanded, side, k) < sep_at(d.doc, d.expanded, side, l));
    }
    assert forall|i: int| 0 <= i < r.rows.len() && (#[trigger] r.rows[i]) is HunkSep implies exists|
        k: int,
    |
        0 <= k < r.sep_rows.len() && #[trigger] r.sep_rows[k] == i by {
        if i >= upto.len() {
            assert(r.rows[i] == gap[i - upto.len()]);
        } else {
            assert(r.rows[i] == upto[i]);
            let k = choose|k: int| 0 <= k < n && #[trigger] sep_at(d.doc, d.expanded, side, k) == i;
            assert(r.sep_rows[k] == i);
        }
    }
}

} // verus!
