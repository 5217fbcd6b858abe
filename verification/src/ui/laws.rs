//! What the diff view shows of a line.
use vstd::prelude::*;

use super::cells;
use super::cells::PaintV;
use super::diffview;
use crate::app::rows::{DiffV, Whitespace};
use crate::git::model::LineV;
use crate::style;
use crate::style::{Color, SpanV, Style};
use crate::text;
use crate::theme::Theme;

verus! {

broadcast use vstd::seq_lib::group_seq_properties;

// ---- The look of a line ----

/// In one column a line shows its number and a mark: a removed line its number on the old side and
/// a minus, an added one its number on the new side and a plus, both on the colours of their kind;
/// an unchanged line its number on the new side and nothing else.
pub proof fn law_line_looks(line: LineV, theme: Theme)
    ensures
        ({
            let look = diffview::line_styling_v(line, theme);
            match line {
                LineV::Context { new_lineno, .. } => look.marker == ' ' && look.number == Some(
                    new_lineno as usize,
                ) && look.base_bg is None && look.strong_bg is None,
                LineV::Removed { old_lineno, .. } => look.marker == '-' && look.number == Some(
                    old_lineno as usize,
                ) && look.base_bg == Some(theme.bg_danger) && look.strong_bg == Some(
                    theme.bg_danger_strong,
                ) && look.marker_style.fg == Some(theme.removed),
                LineV::Added { new_lineno, .. } => look.marker == '+' && look.number == Some(
                    new_lineno as usize,
                ) && look.base_bg == Some(theme.bg_success) && look.strong_bg == Some(
                    theme.bg_success_strong,
                ) && look.marker_style.fg == Some(theme.added),
            }
        }),
{
}

/// In two columns each side shows what stands on it: the number of the line there, and the look of
/// a changed line on its own side alone.
pub proof fn law_half_looks(line: LineV, theme: Theme)
    ensures
        ({
            let left = diffview::half_styling_v(line, true, theme);
            let right = diffview::half_styling_v(line, false, theme);
            let look = diffview::line_styling_v(line, theme);
            &&& line.old_lineno() matches Some(n) ==> left.number == Some(n as usize)
            &&& line.old_lineno() is None ==> left.number is None
            &&& line.new_lineno() matches Some(n) ==> right.number == Some(n as usize)
            &&& line.new_lineno() is None ==> right.number is None
            &&& line is Removed ==> left == look && right.base_bg is None && right.marker == ' '
            &&& line is Added ==> right == look && left.base_bg is None && left.marker == ' '
            &&& line is Context ==> left.marker == ' ' && right.marker == ' ' && left.base_bg is None
                && right.base_bg is None
        }),
{
}

/// A line is shown as its side is highlighted: a removed line from the old side, any other from the
/// new one, by its number there; without highlighting, as its own text.
pub proof fn law_line_segments(d: DiffV, idx: int)
    ensures
        ({
            let line = d.doc.lines[idx];
            let lines = if line is Removed {
                d.old_hl
            } else {
                d.new_hl
            };
            let n = if line is Removed {
                line.old_lineno()->0
            } else {
                line.new_lineno()->0
            };
            &&& lines is None ==> diffview::line_segments_v(d, idx) == seq![
                (line.content(), style::plain_v()),
            ]
            &&& lines matches Some(ls) ==> (1 <= n <= ls.len() && ls[n - 1].len() > 0
                ==> diffview::line_segments_v(d, idx) == ls[n - 1])
            &&& lines matches Some(ls) ==> (n < 1 || n > ls.len() || ls[n - 1].len() == 0
                ==> diffview::line_segments_v(d, idx) == seq![(line.content(), style::plain_v())])
        }),
{
}

/// Whitespace is only dimmed where it is to be, and only on lines whose change is whitespace only.
pub proof fn law_dimmed(d: DiffV, idx: int)
    ensures
        diffview::dimmed_v(d, idx) ==> d.whitespace == Whitespace::Dim && d.ws_only.contains(
            idx as usize,
        ),
        d.whitespace == Whitespace::Dim && d.ws_only.contains(idx as usize)
            ==> diffview::dimmed_v(d, idx),
        d.intra.dom().contains(idx as usize) ==> diffview::changed_v(d, idx)
            == d.intra[idx as usize],
        !d.intra.dom().contains(idx as usize) ==> diffview::changed_v(d, idx) == Set::<
            usize,
        >::empty(),
{
}

// ---- The cells of a line ----

/// A character that was searched for shows that before anything else; one that changed within its
/// line stands on the strong colour, and any other on the plain one of its line.
pub proof fn law_cell_style(p: PaintV, s: Style, i: usize)
    ensures
        p.search.contains(i) ==> p.style(s, i as int).bg == Some(p.search_bg) && p.style(
            s,
            i as int,
        ).fg == Some(Color::Black),
        !p.search.contains(i) ==> p.style(s, i as int).fg == s.fg,
        !p.search.contains(i) && p.intra.contains(i) && p.strong_bg is Some ==> p.style(
            s,
            i as int,
        ).bg == p.strong_bg,
        !p.search.contains(i) && !p.intra.contains(i) && p.base_bg is Some ==> p.style(
            s,
            i as int,
        ).bg == p.base_bg,
        !p.search.contains(i) && p.strong_bg is None && p.base_bg is None ==> p.style(s, i as int)
            == s,
{
}

/// Without tabs every character has a cell of its own, in order, with the style that is its due.
pub proof fn law_cells(chars: Seq<(char, Style)>, paint: PaintV, k: nat)
    requires
        k <= chars.len(),
        forall|i: int| 0 <= i < k ==> (#[trigger] chars[i]).0 != '\t',
    ensures
        cells::cells_v(chars, paint, k).0 == Seq::new(
            k,
            |i: int| (chars[i].0, paint.style(chars[i].1, i)),
        ),
    decreases k,
{
    if k > 0 {
        law_cells(chars, paint, (k - 1) as nat);
        assert(cells::cells_v(chars, paint, k).0 =~= Seq::new(
            k,
            |i: int| (chars[i].0, paint.style(chars[i].1, i)),
        ));
    } else {
        assert(cells::cells_v(chars, paint, 0).0 =~= Seq::new(
            0,
            |i: int| (chars[i].0, paint.style(chars[i].1, i)),
        ));
    }
}

/// A tab becomes spaces, at least one, up to the next column that four divides.
pub proof fn law_tabs(chars: Seq<(char, Style)>, paint: PaintV, k: nat)
    requires
        0 < k <= chars.len(),
        chars[k - 1].0 == '\t',
        cells::cells_v(chars, paint, (k - 1) as nat).1 >= 0,
    ensures
        ({
            let (before, col) = cells::cells_v(chars, paint, (k - 1) as nat);
            let (all, next) = cells::cells_v(chars, paint, k);
            &&& col < next <= col + 4
            &&& next % 4 == 0
            &&& all.len() == before.len() + (next - col)
            &&& before.is_prefix_of(all)
            &&& forall|i: int|
                before.len() <= i < all.len() ==> #[trigger] all[i] == (
                ' ', paint.style(chars[k - 1].1, k - 1))
        }),
{
    let (before, col) = cells::cells_v(chars, paint, (k - 1) as nat);
    let (all, next) = cells::cells_v(chars, paint, k);
    assert(all.subrange(0, before.len() as int) =~= before);
}

/// The cells of some spans.
pub open spec fn spread_v(spans: Seq<SpanV>) -> Seq<(char, Style)>
    decreases spans.len(),
{
    if spans.len() == 0 {
        Seq::empty()
    } else {
        spread_v(spans.drop_last()) + cells::styled_chars_v(
            spans.last().content,
            spans.last().style,
        )
    }
}

/// Cells of one style in a row become one span, and nothing else changes: the spans spread to the
/// same cells, none is empty, and no two neighbours have the same style.
pub proof fn law_coalesce(line: Seq<(char, Style)>)
    ensures
        ({
            let spans = cells::coalesce_v(line);
            &&& spread_v(spans) == line
            &&& line.len() > 0 ==> spans.len() > 0 && spans.last().style == line.last().1
            &&& forall|i: int| 0 <= i < spans.len() ==> (#[trigger] spans[i]).content.len() > 0
            &&& forall|i: int, j: int|
                0 <= i && j == i + 1 && j < spans.len() ==> (#[trigger] spans[i]).style != (
                #[trigger] spans[j]).style
        }),
    decreases line.len(),
{
    if line.len() > 0 {
        let init = line.drop_last();
        law_coalesce(init);
        let before = cells::coalesce_v(init);
        let all = cells::coalesce_v(line);
        let (c, s) = line.last();
        let n = before.len() - 1;
        if before.len() > 0 && before.last().style == s {
            assert(all.drop_last() =~= before.drop_last());
            assert(cells::styled_chars_v(before.last().content.push(c), s) =~= cells::styled_chars_v(
                before.last().content,
                s,
            ).push((c, s)));
            assert(spread_v(all) =~= spread_v(before).push((c, s)));
            assert forall|i: int, j: int|
                0 <= i && j == i + 1 && j < all.len() implies (#[trigger] all[i]).style != (
            #[trigger] all[j]).style by {
                assert(all[i].style == before[i].style);
                assert(all[j].style == before[j].style);
            }
        } else {
            assert(all.drop_last() =~= before);
            assert(cells::styled_chars_v(seq![c], s) =~= seq![(c, s)]);
            assert(spread_v(all) =~= spread_v(before).push((c, s)));
            assert forall|i: int, j: int|
                0 <= i && j == i + 1 && j < all.len() implies (#[trigger] all[i]).style != (
            #[trigger] all[j]).style by {
                assert(all[i] == before[i]);
                if j < before.len() {
                    assert(all[j] == before[j]);
                }
            }
        }
        assert(spread_v(before).push((c, s)) =~= line);
    } else {
        assert(spread_v(cells::coalesce_v(line)) =~= line);
    }
}

/// What a search marks: only characters of an occurrence, and the first of each.
pub proof fn law_hits(hay: Seq<char>, needle: Seq<char>, i: int)
    requires
        0 <= i,
        needle.len() > 0,
        hay.len() <= usize::MAX,
    ensures
        forall|j: usize| #[trigger]
            cells::hits_v(hay, needle, i).contains(j) ==> exists|p: int|
                i <= p <= j && j < p + needle.len() <= hay.len() && needle
                    == #[trigger] hay.subrange(p, p + needle.len()),
        forall|p: int|
            i <= p && p + needle.len() <= hay.len() && needle == #[trigger] hay.subrange(
                p,
                p + needle.len(),
            ) ==> cells::hits_v(hay, needle, i).contains(p as usize),
    decreases hay.len() - i,
{
    let n = needle.len() as int;
    let all = cells::hits_v(hay, needle, i);
    if i + n <= hay.len() {
        let here = needle.is_prefix_of(hay.skip(i));
        assert(hay.skip(i).subrange(0, n) =~= hay.subrange(i, i + n));
        assert(here <==> needle == hay.subrange(i, i + n));
        let k = if here {
            i + n
        } else {
            i + 1
        };
        law_hits(hay, needle, k);
        let rest = cells::hits_v(hay, needle, k);
        assert forall|j: usize| #[trigger] all.contains(j) implies exists|p: int|
            i <= p <= j && j < p + needle.len() <= hay.len() && needle == #[trigger] hay.subrange(
                p,
                p + needle.len(),
            ) by {
            if rest.contains(j) {
                let p = choose|p: int|
                    k <= p <= j && j < p + needle.len() <= hay.len() && needle
                        == #[trigger] hay.subrange(p, p + needle.len());
                assert(needle == hay.subrange(p, p + needle.len()));
            } else {
                assert(needle == hay.subrange(i, i + needle.len()));
            }
        }
        assert forall|p: int|
            i <= p && p + needle.len() <= hay.len() && needle == #[trigger] hay.subrange(
                p,
                p + needle.len(),
            ) implies all.contains(p as usize) by {
            if p >= k {
                assert(rest.contains(p as usize));
            }
        }
    }
}

// ---- The rows of the view ----

proof fn lemma_largest(lines: Seq<LineV>, i: int)
    requires
        0 <= i < lines.len(),
    ensures
        lines[i].old_lineno() matches Some(n) ==> n <= diffview::largest_number_v(lines),
        lines[i].new_lineno() matches Some(n) ==> n <= diffview::largest_number_v(lines),
    decreases lines.len(),
{
    if i < lines.len() - 1 {
        lemma_largest(lines.drop_last(), i);
    }
}

/// The numbers of lines are as wide as the largest one, but at least three and at most six cells.
pub proof fn law_gutter(lines: Seq<LineV>, i: int)
    requires
        0 <= i < lines.len(),
    ensures
        3 <= diffview::gutter_width_v(lines) <= 6,
        lines[i].old_lineno() matches Some(n) ==> n <= diffview::largest_number_v(lines),
        lines[i].new_lineno() matches Some(n) ==> n <= diffview::largest_number_v(lines),
        ({
            let digits = text::decimal_v(diffview::largest_number_v(lines) as nat).len();
            3 <= digits <= 6 ==> diffview::gutter_width_v(lines) == digits
        }),
{
    lemma_largest(lines, i);
}

/// A row of two columns has the left line's old side, three cells between, and the right line's new
/// side; the columns share the rest evenly.
pub proof fn law_side_rows(
    d: DiffV,
    left: Option<usize>,
    right: Option<usize>,
    gutter: nat,
    w: int,
    theme: Theme,
)
    requires
        w >= 3,
    ensures
        ({
            let l = (w - 3) / 2;
            let r = (w - 3) - l;
            let lhs = diffview::build_half_v(d, left, true, l, gutter, theme);
            let rhs = diffview::build_half_v(d, right, false, r, gutter, theme);
            let rows = diffview::side_row_v(d, left, right, gutter, w, theme);
            &&& l + 3 + r == w && l <= r <= l + 1
            &&& rows.len() >= 1 && rows.len() >= lhs.len() && rows.len() >= rhs.len()
            &&& forall|k: int|
                0 <= k < lhs.len() ==> lhs[k].is_prefix_of((#[trigger] rows[k]).spans)
            &&& forall|k: int|
                0 <= k < rhs.len() ==> rhs[k].is_suffix_of((#[trigger] rows[k]).spans)
        }),
{
    let l = (w - 3) / 2;
    let r = (w - 3) - l;
    let lhs = diffview::build_half_v(d, left, true, l, gutter, theme);
    let rhs = diffview::build_half_v(d, right, false, r, gutter, theme);
    let rows = diffview::side_row_v(d, left, right, gutter, w, theme);
    assert forall|k: int| 0 <= k < lhs.len() implies lhs[k].is_prefix_of(
        (#[trigger] rows[k]).spans,
    ) by {
        assert(rows[k].spans.subrange(0, lhs[k].len() as int) =~= lhs[k]);
    }
    assert forall|k: int| 0 <= k < rhs.len() implies rhs[k].is_suffix_of(
        (#[trigger] rows[k]).spans,
    ) by {
        let n = rows[k].spans.len() as int;
        assert(rows[k].spans.subrange(n - rhs[k].len(), n) =~= rhs[k]);
    }
}

proof fn lemma_fill(
    d: DiffV,
    gutter: nat,
    w: int,
    theme: Theme,
    want: int,
    i: int,
    out: Seq<crate::style::TextV>,
)
    ensures
        out.is_prefix_of(diffview::fill_v(d, gutter, w, theme, want, i, out)),
    decreases d.rows.len() - i,
{
    let all = diffview::fill_v(d, gutter, w, theme, want, i, out);
    if i < d.rows.len() && out.len() < want {
        let next = out + diffview::row_lines_v(d, d.rows[i], gutter, w, theme);
        lemma_fill(d, gutter, w, theme, want, i + 1, next);
        assert(all.subrange(0, next.len() as int) =~= next);
        assert(all.subrange(0, out.len() as int) =~= out);
    } else {
        assert(all.subrange(0, out.len() as int) =~= out);
    }
}

/// The view shows the rows from the top one on, and no more lines than it is high.
pub proof fn law_view_starts_at_top(d: DiffV, w: int, height: int, theme: Theme)
    requires
        0 <= d.scroll < d.rows.len(),
        height > 0,
    ensures
        ({
            let body = diffview::body_lines_v(d, w, height, theme);
            let first = diffview::row_lines_v(
                d,
                d.rows[d.scroll],
                diffview::gutter_width_v(d.doc.lines),
                w,
                theme,
            );
            &&& body.len() <= height
            &&& first.len() <= height ==> first.is_prefix_of(body)
        }),
{
    let gutter = diffview::gutter_width_v(d.doc.lines);
    let first = diffview::row_lines_v(d, d.rows[d.scroll], gutter, w, theme);
    let all = diffview::fill_v(d, gutter, w, theme, height, d.scroll, Seq::empty());
    assert(Seq::<crate::style::TextV>::empty() + first =~= first);
    lemma_fill(d, gutter, w, theme, height, d.scroll + 1, first);
    let body = diffview::body_lines_v(d, w, height, theme);
    if first.len() <= height {
        assert(all.subrange(0, first.len() as int) =~= first);
        assert(body.subrange(0, first.len() as int) =~= first);
    }
}

// ---- A line as it is drawn ----

/// The characters of a line as they are drawn: those of its text in the faint colour where it is
/// dimmed, else as highlighted, with what changed within the line on the strong colour; either way
/// with what was searched for marked.
pub proof fn law_drawn_chars(
    d: DiffV,
    idx: int,
    base_bg: Option<Color>,
    strong_bg: Option<Color>,
    theme: Theme,
    i: int,
)
    requires
        ({
            let chars = cells::flat_v(diffview::line_segments_v(d, idx));
            &&& diffview::dimmed_v(d, idx) ==> i < d.doc.lines[idx].content().len()
                && !d.doc.lines[idx].content().contains('\t')
            &&& !diffview::dimmed_v(d, idx) ==> i < chars.len() && forall|k: int|
                0 <= k < chars.len() ==> (#[trigger] chars[k]).0 != '\t'
        }),
        0 <= i <= usize::MAX,
    ensures
        ({
            let chars = cells::flat_v(diffview::line_segments_v(d, idx));
            let drawn = diffview::line_cells_v(d, idx, base_bg, strong_bg, theme);
            let content = d.doc.lines[idx].content();
            let hit = diffview::found_v(d, idx).contains(i as usize);
            let changed = d.intra.dom().contains(idx as usize) && d.intra[idx as usize].contains(
                i as usize,
            );
            &&& diffview::dimmed_v(d, idx) ==> {
                &&& drawn.len() == content.len()
                &&& drawn[i].0 == content[i]
                &&& !hit ==> drawn[i].1.fg == Some(theme.tertiary) && drawn[i].1.bg == base_bg
            }
            &&& !diffview::dimmed_v(d, idx) ==> {
                &&& drawn.len() == chars.len()
                &&& drawn[i].0 == chars[i].0
                &&& !hit && changed && strong_bg is Some ==> drawn[i].1.bg == strong_bg
                &&& !hit && !changed && base_bg is Some ==> drawn[i].1.bg == base_bg
                &&& !hit ==> drawn[i].1.fg == chars[i].1.fg
            }
            &&& hit ==> drawn[i].1.bg == Some(theme.modified)
        }),
{
    let dim = diffview::dimmed_v(d, idx);
    let content = d.doc.lines[idx].content();
    let segs = if dim {
        seq![(content, style::fg_v(theme.tertiary))]
    } else {
        diffview::line_segments_v(d, idx)
    };
    let chars = cells::flat_v(segs);
    let paint = PaintV {
        intra: if dim {
            Set::empty()
        } else {
            diffview::changed_v(d, idx)
        },
        search: diffview::found_v(d, idx),
        base_bg,
        strong_bg: if dim {
            None
        } else {
            strong_bg
        },
        search_bg: theme.modified,
    };
    if dim {
        reveal_with_fuel(cells::flat_v, 2);
        assert(segs.drop_last() =~= Seq::empty());
        assert(chars =~= cells::styled_chars_v(content, style::fg_v(theme.tertiary)));
        assert forall|k: int| 0 <= k < chars.len() implies (#[trigger] chars[k]).0 != '\t' by {
            assert(chars[k].0 == content[k]);
            assert(content.contains(content[k]));
        }
    }
    law_cells(chars, paint, chars.len());
    assert(diffview::line_cells_v(d, idx, base_bg, strong_bg, theme) == Seq::new(
        chars.len(),
        |k: int| (chars[k].0, paint.style(chars[k].1, k)),
    ));
}

/// In one column a line is its number, right-aligned, its mark and its text, on the colour of its
/// kind.
pub proof fn law_unified_line(d: DiffV, idx: int, gutter: nat, w: int, theme: Theme)
    ensures
        ({
            let look = diffview::line_styling_v(d.doc.lines[idx], theme);
            let t = diffview::unified_line_v(d, idx, gutter, w, theme);
            let text = cells::visual_lines_v(
                diffview::line_cells_v(d, idx, None, look.strong_bg, theme),
                None,
            ).last();
            &&& t.spans.len() >= 5 + text.len()
            &&& t.spans[1].content == text::pad_left_v(diffview::number_v(look.number), gutter)
            &&& t.spans[3].content == seq![look.marker]
            &&& t.spans.subrange(5, 5 + text.len() as int) == text
            &&& t.style.bg == look.base_bg
        }),
{
    let look = diffview::line_styling_v(d.doc.lines[idx], theme);
    let t = diffview::unified_line_v(d, idx, gutter, w, theme);
    let text = cells::visual_lines_v(
        diffview::line_cells_v(d, idx, None, look.strong_bg, theme),
        None,
    ).last();
    assert(t.spans.subrange(5, 5 + text.len() as int) =~= text);
}

/// In a column of two, the first row of a line has its number and its mark; further rows, where it
/// is too long for one, have an arrow instead.
pub proof fn law_half_rows(
    d: DiffV,
    idx: int,
    old_side: bool,
    width: int,
    gutter: nat,
    theme: Theme,
    k: int,
)
    requires
        0 <= k < diffview::half_v(d, idx, old_side, width, gutter, theme).len(),
    ensures
        ({
            let look = diffview::half_styling_v(d.doc.lines[idx], old_side, theme);
            let row = diffview::half_v(d, idx, old_side, width, gutter, theme)[k];
            &&& row.len() >= 5
            &&& k == 0 ==> row[1].content == text::pad_left_v(
                diffview::number_v(look.number),
                gutter,
            ) && row[3].content == seq![look.marker]
            &&& k > 0 ==> row[1].content == text::repeat_v(' ', gutter) && row[3].content == seq!['↪']
            &&& look.base_bg is Some ==> row[0].style.bg == look.base_bg
        }),
{
}

/// A fold says how many lines it hides, and a separator which hunk it starts and what encloses it.
pub proof fn law_fold_and_hunk_labels(
    h: crate::git::model::HunkV,
    idx: int,
    total: nat,
    hidden: nat,
    theme: Theme,
)
    ensures
        hidden != 1 ==> diffview::fold_label_v(hidden) == "  ── "@ + text::decimal_v(hidden)
            + " unchanged "@ + "lines"@ + " (z to expand) "@,
        hidden == 1 ==> diffview::fold_label_v(hidden) == "  ── "@ + text::decimal_v(1)
            + " unchanged "@ + "line"@ + " (z to expand) "@,
        diffview::hunk_spans_v(h, idx, total, theme)[0].content == "  ── hunk "@ + text::decimal_v(
            (idx + 1) as nat,
        ) + " of "@ + text::decimal_v(total) + " "@,
        h.function_context matches Some(ctx) ==> diffview::hunk_spans_v(
            h,
            idx,
            total,
            theme,
        )[2].content == ctx,
{
}

} // verus!
