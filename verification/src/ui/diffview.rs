//! The diff view of a file.
use std::collections::HashSet;
use vstd::prelude::*;
use vstd::string::*;

use crate::app::coverage;
use crate::app::motion;
use crate::style;
use crate::text;
use crate::ui::cells;
use crate::ui::layout;
use crate::ui::widgets;
use crate::width;
use crate::app::rows::{DiffState, DiffV, DisplayRow, ViewMode, Whitespace};
use crate::git::model::{DiffLine, Hunk, HunkV, LineV};
use crate::style::{
    Color, Line, Span, SpanV, Style, TextV, no_lines, no_spans, push_line, push_raw, push_spans,
    push_styled, spans_width,
};
use crate::syntax::Seg;
use crate::text::{char_text, chars_of, decimal_usize, pad_left, repeat};
use crate::theme::Theme;
use crate::ui::cells::{Paint, PaintV, expand_style, search_chars, visual_lines};
use crate::ui::widgets::{pad_to, push_lines};
use crate::util;
use crate::width::str_width;

verus! {

broadcast use {vstd::seq_lib::group_seq_properties, vstd::std_specs::hash::group_hash_axioms};

// ---- How a line looks ----

/// The number, the marker and the backgrounds of a line.
#[derive(Clone, Copy)]
pub struct Look {
    pub number: Option<usize>,
    pub marker: char,
    pub marker_style: Style,
    pub base_bg: Option<Color>,
    pub strong_bg: Option<Color>,
}

/// The look of a line without a change.
pub open spec fn unchanged_v(number: Option<usize>) -> Look {
    Look { number, marker: ' ', marker_style: style::plain_v(), base_bg: None, strong_bg: None }
}

/// The look of a line: its number, a marker, the background, and that of what changed in it.
pub open spec fn line_styling_v(line: LineV, theme: Theme) -> Look {
    match line {
        LineV::Context { new_lineno, .. } => unchanged_v(Some(new_lineno as usize)),
        LineV::Removed { old_lineno, .. } => Look {
            number: Some(old_lineno as usize),
            marker: '-',
            marker_style: style::fg_v(theme.removed).with_bold_v(),
            base_bg: Some(theme.bg_danger),
            strong_bg: Some(theme.bg_danger_strong),
        },
        LineV::Added { new_lineno, .. } => Look {
            number: Some(new_lineno as usize),
            marker: '+',
            marker_style: style::fg_v(theme.added).with_bold_v(),
            base_bg: Some(theme.bg_success),
            strong_bg: Some(theme.bg_success_strong),
        },
    }
}

/// The look of a line in one of two columns. A line that does not stand on a side has none there.
pub open spec fn half_styling_v(line: LineV, old_side: bool, theme: Theme) -> Look {
    match line {
        LineV::Context { old_lineno, new_lineno, .. } => unchanged_v(
            Some(
                if old_side {
                    old_lineno
                } else {
                    new_lineno
                } as usize,
            ),
        ),
        LineV::Removed { .. } => if old_side {
            line_styling_v(line, theme)
        } else {
            unchanged_v(None)
        },
        LineV::Added { .. } => if old_side {
            unchanged_v(None)
        } else {
            line_styling_v(line, theme)
        },
    }
}

/// The look of a line without a change.
fn unchanged(number: Option<usize>) -> (r: Look)
    ensures
        r == unchanged_v(number),
{
    Look { number, marker: ' ', marker_style: Style::plain(), base_bg: None, strong_bg: None }
}

/// The look of a line.
fn line_styling(line: &DiffLine, theme: &Theme) -> (r: Look)
    ensures
        r == line_styling_v(line.deep_view(), *theme),
{
    match line {
        DiffLine::Context { new_lineno, .. } => unchanged(Some(*new_lineno)),
        DiffLine::Removed { old_lineno, .. } => Look {
            number: Some(*old_lineno),
            marker: '-',
            marker_style: Style::with(theme.removed).bold(),
            base_bg: Some(theme.bg_danger),
            strong_bg: Some(theme.bg_danger_strong),
        },
        DiffLine::Added { new_lineno, .. } => Look {
            number: Some(*new_lineno),
            marker: '+',
            marker_style: Style::with(theme.added).bold(),
            base_bg: Some(theme.bg_success),
            strong_bg: Some(theme.bg_success_strong),
        },
    }
}

/// The look of a line in one of two columns.
fn half_styling(line: &DiffLine, old_side: bool, theme: &Theme) -> (r: Look)
    ensures
        r == half_styling_v(line.deep_view(), old_side, *theme),
{
    match line {
        DiffLine::Context { old_lineno, new_lineno, .. } => unchanged(
            Some(
                if old_side {
                    *old_lineno
                } else {
                    *new_lineno
                },
            ),
        ),
        DiffLine::Removed { .. } => {
            if old_side {
                line_styling(line, theme)
            } else {
                unchanged(None)
            }
        },
        DiffLine::Added { .. } => {
            if old_side {
                unchanged(None)
            } else {
                line_styling(line, theme)
            }
        },
    }
}

/// The number of a line as text.
pub open spec fn number_v(number: Option<usize>) -> Seq<char> {
    match number {
        Some(n) => text::decimal_v(n as nat),
        None => Seq::empty(),
    }
}

/// The number of a line as text.
fn number_text(number: Option<usize>) -> (r: String)
    ensures
        r@ == number_v(number),
{
    match number {
        Some(n) => decimal_usize(n),
        None => {
            let s = String::new();
            assert(s@ =~= Seq::empty());
            s
        },
    }
}

// ---- What a line holds ----

/// The highlighting of a source line, by its number, where there is any.
pub open spec fn highlighted_v(
    cache: Option<Seq<Seq<(Seq<char>, Style)>>>,
    lineno: int,
) -> Option<Seq<(Seq<char>, Style)>> {
    match cache {
        Some(lines) => if 1 <= lineno <= lines.len() && lines[lineno - 1].len() > 0 {
            Some(lines[lineno - 1])
        } else {
            None
        },
        None => None,
    }
}

/// The segments of a line: its highlighting, that of the old side for a removed line; else the text
/// as it is.
pub open spec fn line_segments_v(d: DiffV, idx: int) -> Seq<(Seq<char>, Style)> {
    let line = d.doc.lines[idx];
    let found = match line {
        LineV::Removed { old_lineno, .. } => highlighted_v(d.old_hl, old_lineno),
        LineV::Added { new_lineno, .. } => highlighted_v(d.new_hl, new_lineno),
        LineV::Context { new_lineno, .. } => highlighted_v(d.new_hl, new_lineno),
    };
    match found {
        Some(segs) => segs,
        None => seq![(line.content(), style::plain_v())],
    }
}

/// Is a line shown dimmed, since only its whitespace changed?
pub open spec fn dimmed_v(d: DiffV, idx: int) -> bool {
    d.whitespace == Whitespace::Dim && d.ws_only.contains(idx as usize)
}

/// The characters of a line that changed.
pub open spec fn changed_v(d: DiffV, idx: int) -> Set<usize> {
    if d.intra.dom().contains(idx as usize) {
        d.intra[idx as usize]
    } else {
        Set::empty()
    }
}

/// The characters of a line that the search found.
pub open spec fn found_v(d: DiffV, idx: int) -> Set<usize> {
    match cells::search_chars_v(d.doc.lines[idx].content(), d.search) {
        Some(s) => s,
        None => Set::empty(),
    }
}

/// The cells of a line, over a background.
pub open spec fn line_cells_v(
    d: DiffV,
    idx: int,
    base_bg: Option<Color>,
    strong_bg: Option<Color>,
    theme: Theme,
) -> Seq<(char, Style)> {
    let dim = dimmed_v(d, idx);
    let segs = if dim {
        seq![(d.doc.lines[idx].content(), style::fg_v(theme.tertiary))]
    } else {
        line_segments_v(d, idx)
    };
    let paint = PaintV {
        intra: if dim {
            Set::empty()
        } else {
            changed_v(d, idx)
        },
        search: found_v(d, idx),
        base_bg,
        strong_bg: if dim {
            None
        } else {
            strong_bg
        },
        search_bg: theme.modified,
    };
    cells::cells_v(cells::flat_v(segs), paint, cells::flat_v(segs).len()).0
}

/// A copy of segments.
fn copy_segs(segs: &Vec<Seg>) -> (r: Vec<Seg>)
    ensures
        r.deep_view() == segs.deep_view(),
{
    let mut out: Vec<Seg> = Vec::new();
    let mut i: usize = 0;
    while i < segs.len()
        invariant
            i == out@.len() <= segs@.len(),
            forall|k: int|
                0 <= k < i ==> (#[trigger] out@[k]).0@ == segs@[k].0@ && out@[k].1 == segs@[k].1,
        decreases segs@.len() - i,
    {
        out.push((segs[i].0.clone(), segs[i].1));
        i = i + 1;
    }
    assert(out.deep_view() =~= segs.deep_view());
    out
}

/// The highlighting of a source line, by its number.
fn highlighted(cache: &Option<Vec<Vec<Seg>>>, lineno: usize) -> (r: Option<Vec<Seg>>)
    ensures
        r.deep_view() == highlighted_v(cache.deep_view(), lineno as int),
{
    match cache {
        Some(lines) => {
            if lineno == 0 || lineno > lines.len() {
                return None;
            }
            assert(lines.deep_view()[lineno - 1] == lines@[lineno - 1].deep_view());
            if lines[lineno - 1].len() == 0 {
                return None;
            }
            Some(copy_segs(&lines[lineno - 1]))
        },
        None => None,
    }
}

/// A text as one segment.
fn one_seg(text: &str, style: Style) -> (r: Vec<Seg>)
    ensures
        r.deep_view() == seq![(text@, style)],
{
    let mut segs: Vec<Seg> = Vec::new();
    segs.push((text.to_owned(), style));
    assert(segs.deep_view() =~= seq![(text@, style)]);
    segs
}

/// The segments of a line.
fn line_segments(d: &DiffState, idx: usize) -> (r: Vec<Seg>)
    requires
        idx < d.doc.lines@.len(),
    ensures
        r.deep_view() == line_segments_v(d.deep_view(), idx as int),
{
    let line = &d.doc.lines[idx];
    assert(d.deep_view().doc.lines[idx as int] == d.doc.lines@[idx as int].deep_view());
    let found: Option<Vec<Seg>> = match line {
        DiffLine::Removed { old_lineno, .. } => highlighted(&d.old_hl, *old_lineno),
        DiffLine::Added { new_lineno, .. } => highlighted(&d.new_hl, *new_lineno),
        DiffLine::Context { new_lineno, .. } => highlighted(&d.new_hl, *new_lineno),
    };
    match found {
        Some(segs) => segs,
        None => one_seg(line.content(), Style::plain()),
    }
}

/// The cells of a line, over a background.
fn line_cells(
    d: &DiffState,
    idx: usize,
    base_bg: Option<Color>,
    strong_bg: Option<Color>,
    theme: &Theme,
) -> (r: Vec<(char, Style)>)
    requires
        idx < d.doc.lines@.len(),
    ensures
        r@ == line_cells_v(d.deep_view(), idx as int, base_bg, strong_bg, *theme),
{
    let ghost dv = d.deep_view();
    assert(dv.doc.lines[idx as int] == d.doc.lines@[idx as int].deep_view());
    let content = d.doc.lines[idx].content();
    let search = search_chars(content, d.search.as_str());
    let dim: bool = matches!(d.whitespace, Whitespace::Dim) && d.ws_only.contains(&idx);
    if dim {
        let segs = one_seg(content, theme.dim());
        let paint = Paint {
            intra: None,
            search: search.as_ref(),
            base_bg,
            strong_bg: None,
            search_bg: theme.modified,
        };
        expand_style(&segs, &paint)
    } else {
        let segs = line_segments(d, idx);
        let intra: Option<&HashSet<usize>> = d.intra.get(&idx);
        assert(cells::set_view(intra) =~= changed_v(dv, idx as int));
        let paint = Paint {
            intra,
            search: search.as_ref(),
            base_bg,
            strong_bg,
            search_bg: theme.modified,
        };
        expand_style(&segs, &paint)
    }
}

// ---- Rows of one column ----

/// The style of a line's marker.
pub open spec fn marker_style_v(d: DiffV, idx: int, look: Look, theme: Theme) -> Style {
    if dimmed_v(d, idx) {
        style::fg_v(theme.tertiary)
    } else {
        look.marker_style
    }
}

/// A line in one column: number, marker and text, over the background of the line.
pub open spec fn unified_line_v(d: DiffV, idx: int, gutter: nat, w: int, theme: Theme) -> TextV {
    let look = line_styling_v(d.doc.lines[idx], theme);
    let cells = line_cells_v(d, idx, None, look.strong_bg, theme);
    let spans = seq![
        style::raw_v(" "@),
        style::styled_v(text::pad_left_v(number_v(look.number), gutter), style::fg_v(theme.tertiary)),
        style::raw_v(" "@),
        style::styled_v(seq![look.marker], marker_style_v(d, idx, look, theme)),
        style::raw_v(" "@),
    ] + cells::visual_lines_v(cells, None).last();
    TextV {
        spans: widgets::pad_to_v(spans, w),
        style: match look.base_bg {
            Some(bg) => style::bg_v(bg),
            None => style::plain_v(),
        },
    }
}

/// Is a line shown dimmed?
fn is_dimmed(d: &DiffState, idx: usize) -> (r: bool)
    ensures
        r == dimmed_v(d.deep_view(), idx as int),
{
    matches!(d.whitespace, Whitespace::Dim) && d.ws_only.contains(&idx)
}

/// A line in one column.
fn unified_line(d: &DiffState, idx: usize, gutter: usize, w: u16, theme: &Theme) -> (r: Line)
    requires
        idx < d.doc.lines@.len(),
    ensures
        r.deep_view() == unified_line_v(d.deep_view(), idx as int, gutter as nat, w as int, *theme),
{
    let ghost dv = d.deep_view();
    assert(dv.doc.lines[idx as int] == d.doc.lines@[idx as int].deep_view());
    let look = line_styling(&d.doc.lines[idx], theme);
    let marker_style: Style = if is_dimmed(d, idx) {
        theme.dim()
    } else {
        look.marker_style
    };
    let cells = line_cells(d, idx, None, look.strong_bg, theme);
    let visuals = visual_lines(&cells, usize::MAX);
    let last: usize = visuals.len() - 1;
    assert(visuals.deep_view()[last as int] == visuals@[last as int].deep_view());
    let num = number_text(look.number);
    let mut spans = no_spans();
    push_raw(&mut spans, " ");
    push_styled(&mut spans, pad_left(num.as_str(), gutter).as_str(), theme.dim());
    push_raw(&mut spans, " ");
    push_styled(&mut spans, char_text(look.marker).as_str(), marker_style);
    push_raw(&mut spans, " ");
    push_spans(&mut spans, &visuals[last]);
    assert(spans.deep_view() =~= seq![
        style::raw_v(" "@),
        style::styled_v(text::pad_left_v(number_v(look.number), gutter as nat), style::fg_v(theme.tertiary)),
        style::raw_v(" "@),
        style::styled_v(seq![look.marker], marker_style),
        style::raw_v(" "@),
    ] + visuals.deep_view().last());
    let style: Style = match look.base_bg {
        Some(bg) => Style::plain().bg(bg),
        None => Style::plain(),
    };
    Line { spans: pad_to(spans, w), style }
}

// ---- Rows of two columns ----

/// The background that a half is padded with.
pub open spec fn pad_style_v(look: Look) -> Style {
    match look.base_bg {
        Some(c) => style::bg_v(c),
        None => style::plain_v(),
    }
}

/// The spans of a half that stand before the text: number and marker in the first row, and a sign
/// that the line goes on in the others.
pub open spec fn half_prefix_v(d: DiffV, idx: int, look: Look, k: int, gutter: nat, theme: Theme) -> Seq<
    SpanV,
> {
    let pad = pad_style_v(look);
    let dim = style::fg_v(theme.tertiary).patched_v(pad);
    seq![
        style::styled_v(" "@, pad),
        style::styled_v(
            if k == 0 {
                text::pad_left_v(number_v(look.number), gutter)
            } else {
                text::repeat_v(' ', gutter)
            },
            dim,
        ),
        style::styled_v(" "@, pad),
        style::styled_v(
            seq![
                if k == 0 {
                    look.marker
                } else {
                    '↪'
                },
            ],
            if k == 0 {
                marker_style_v(d, idx, look, theme).patched_v(pad)
            } else {
                dim
            },
        ),
        style::styled_v(" "@, pad),
    ]
}

/// Spans filled up to a width in a style.
pub open spec fn filled_v(spans: Seq<SpanV>, width: int, style: Style) -> Seq<SpanV> {
    let pad = style::gap_v(width, style::spans_width_v(spans));
    if pad > 0 {
        spans.push(style::styled_v(text::repeat_v(' ', pad), style))
    } else {
        spans
    }
}

/// The width that the text of a half has.
pub open spec fn content_width_v(width: int, gutter: int) -> int {
    let w = layout::less_v(width, gutter + 4);
    if w > 1 {
        w
    } else {
        1
    }
}

/// A line in one of two columns, in as many rows as it takes.
pub open spec fn half_v(d: DiffV, idx: int, old_side: bool, width: int, gutter: nat, theme: Theme) -> Seq<
    Seq<SpanV>,
> {
    let look = half_styling_v(d.doc.lines[idx], old_side, theme);
    let cells = line_cells_v(d, idx, look.base_bg, look.strong_bg, theme);
    let visuals = cells::visual_lines_v(cells, Some(content_width_v(width, gutter as int)));
    Seq::new(
        visuals.len(),
        |k: int|
            filled_v(
                half_prefix_v(d, idx, look, k, gutter, theme) + visuals[k],
                width,
                pad_style_v(look),
            ),
    )
}

/// A half that may be empty.
pub open spec fn build_half_v(
    d: DiffV,
    idx: Option<usize>,
    old_side: bool,
    width: int,
    gutter: nat,
    theme: Theme,
) -> Seq<Seq<SpanV>> {
    match idx {
        Some(i) => half_v(d, i as int, old_side, width, gutter, theme),
        None => Seq::empty(),
    }
}

/// Row `k` of a half; blank below its end.
pub open spec fn half_row_v(half: Seq<Seq<SpanV>>, k: int, width: int) -> Seq<SpanV> {
    if k < half.len() {
        half[k]
    } else {
        seq![style::raw_v(text::repeat_v(' ', width as nat))]
    }
}

/// The larger of two numbers.
pub open spec fn max_v(a: int, b: int) -> int {
    if a > b {
        a
    } else {
        b
    }
}

/// A row of two columns, in as many rows as the longer half takes.
pub open spec fn side_row_v(
    d: DiffV,
    left: Option<usize>,
    right: Option<usize>,
    gutter: nat,
    w: int,
    theme: Theme,
) -> Seq<TextV> {
    let total = layout::less_v(w, 3);
    let left_w = total / 2;
    let right_w = total - total / 2;
    let lhs = build_half_v(d, left, true, left_w, gutter, theme);
    let rhs = build_half_v(d, right, false, right_w, gutter, theme);
    Seq::new(
        max_v(max_v(lhs.len() as int, rhs.len() as int), 1) as nat,
        |k: int|
            style::line_v(
                half_row_v(lhs, k, left_w).push(style::styled_v(" │ "@, style::fg_v(theme.chrome))) + half_row_v(
                    rhs,
                    k,
                    right_w,
                ),
            ),
    )
}

/// Fills spans up to a width in a style.
fn filled(spans: Vec<Span>, width: usize, style: Style) -> (r: Vec<Span>)
    ensures
        r.deep_view() == filled_v(spans.deep_view(), width as int, style),
{
    proof {
        widgets::lemma_width_nonneg(spans.deep_view());
    }
    let used: usize = spans_width(&spans);
    let pad: usize = width.saturating_sub(used);
    let mut spans = spans;
    if pad > 0 {
        push_styled(&mut spans, repeat(' ', pad).as_str(), style);
    }
    spans
}

/// The spans of a half that stand before the text.
fn half_prefix(d: &DiffState, idx: usize, look: Look, k: usize, gutter: usize, theme: &Theme) -> (r: Vec<
    Span,
>)
    ensures
        r.deep_view() == half_prefix_v(
            d.deep_view(),
            idx as int,
            look,
            k as int,
            gutter as nat,
            *theme,
        ),
{
    let pad: Style = match look.base_bg {
        Some(c) => Style::plain().bg(c),
        None => Style::plain(),
    };
    let marker_style: Style = if is_dimmed(d, idx) {
        theme.dim()
    } else {
        look.marker_style
    };
    let dim = theme.dim().patch(pad);
    let mut spans = no_spans();
    push_styled(&mut spans, " ", pad);
    if k == 0 {
        let num = number_text(look.number);
        push_styled(&mut spans, pad_left(num.as_str(), gutter).as_str(), dim);
        push_styled(&mut spans, " ", pad);
        push_styled(&mut spans, char_text(look.marker).as_str(), marker_style.patch(pad));
    } else {
        push_styled(&mut spans, repeat(' ', gutter).as_str(), dim);
        push_styled(&mut spans, " ", pad);
        push_styled(&mut spans, char_text('↪').as_str(), dim);
    }
    push_styled(&mut spans, " ", pad);
    assert(spans.deep_view() =~= half_prefix_v(
        d.deep_view(),
        idx as int,
        look,
        k as int,
        gutter as nat,
        *theme,
    ));
    spans
}

/// A line in one of two columns, wrapped; no rows where there is no line.
fn build_half(
    d: &DiffState,
    idx: Option<usize>,
    old_side: bool,
    width: usize,
    gutter: usize,
    theme: &Theme,
) -> (r: Vec<Vec<Span>>)
    requires
        idx matches Some(i) ==> i < d.doc.lines@.len(),
        gutter <= 6,
        width <= 0xffff,
    ensures
        r.deep_view() == build_half_v(
            d.deep_view(),
            idx,
            old_side,
            width as int,
            gutter as nat,
            *theme,
        ),
{
    let mut out: Vec<Vec<Span>> = Vec::new();
    let idx: usize = match idx {
        Some(i) => i,
        None => {
            assert(out.deep_view() =~= Seq::empty());
            return out;
        },
    };
    let ghost dv = d.deep_view();
    assert(dv.doc.lines[idx as int] == d.doc.lines@[idx as int].deep_view());
    let look = half_styling(&d.doc.lines[idx], old_side, theme);
    let rest: usize = width.saturating_sub(gutter + 4);
    let content_w: usize = if rest > 1 {
        rest
    } else {
        1
    };
    let cells = line_cells(d, idx, look.base_bg, look.strong_bg, theme);
    let visuals = visual_lines(&cells, content_w);
    let pad: Style = match look.base_bg {
        Some(c) => Style::plain().bg(c),
        None => Style::plain(),
    };
    let ghost vs = visuals.deep_view();
    let ghost want = half_v(dv, idx as int, old_side, width as int, gutter as nat, *theme);
    let mut k: usize = 0;
    while k < visuals.len()
        invariant
            k <= visuals@.len(),
            dv == d.deep_view(),
            vs == visuals.deep_view(),
            want == Seq::new(
                vs.len(),
                |k: int|
                    filled_v(
                        half_prefix_v(dv, idx as int, look, k, gutter as nat, *theme) + vs[k],
                        width as int,
                        pad,
                    ),
            ),
            out.deep_view() =~= want.take(k as int),
        decreases visuals@.len() - k,
    {
        let ghost before = out.deep_view();
        assert(vs[k as int] == visuals@[k as int].deep_view());
        let mut spans = half_prefix(d, idx, look, k, gutter, theme);
        push_spans(&mut spans, &visuals[k]);
        let row = filled(spans, width, pad);
        assert(row.deep_view() == want[k as int]);
        out.push(row);
        assert(out.deep_view() =~= before.push(want[k as int]));
        k = k + 1;
    }
    assert(out.deep_view() =~= want);
    out
}

/// Appends row `k` of a half.
fn push_half(spans: &mut Vec<Span>, half: &Vec<Vec<Span>>, k: usize, width: usize)
    ensures
        final(spans).deep_view() == old(spans).deep_view() + half_row_v(
            half.deep_view(),
            k as int,
            width as int,
        ),
{
    if k < half.len() {
        assert(half.deep_view()[k as int] == half@[k as int].deep_view());
        push_spans(spans, &half[k]);
    } else {
        push_raw(spans, repeat(' ', width).as_str());
        assert(spans.deep_view() =~= old(spans).deep_view() + seq![
            style::raw_v(text::repeat_v(' ', width as nat)),
        ]);
    }
}

/// A row of two columns.
fn side_row(
    d: &DiffState,
    left: Option<usize>,
    right: Option<usize>,
    gutter: usize,
    w: u16,
    theme: &Theme,
) -> (r: Vec<Line>)
    requires
        left matches Some(i) ==> i < d.doc.lines@.len(),
        right matches Some(i) ==> i < d.doc.lines@.len(),
        gutter <= 6,
    ensures
        r.deep_view() == side_row_v(d.deep_view(), left, right, gutter as nat, w as int, *theme),
{
    let total: usize = w.saturating_sub(3) as usize;
    let left_w: usize = total / 2;
    let right_w: usize = total - total / 2;
    let lhs = build_half(d, left, true, left_w, gutter, theme);
    let rhs = build_half(d, right, false, right_w, gutter, theme);
    let mut n: usize = 1;
    if lhs.len() > n {
        n = lhs.len();
    }
    if rhs.len() > n {
        n = rhs.len();
    }
    let ghost want = side_row_v(d.deep_view(), left, right, gutter as nat, w as int, *theme);
    let ghost lv = lhs.deep_view();
    let ghost rv = rhs.deep_view();
    let mut out = no_lines();
    let mut k: usize = 0;
    while k < n
        invariant
            k <= n,
            lv == lhs.deep_view(),
            rv == rhs.deep_view(),
            want == Seq::new(
                n as nat,
                |k: int|
                    style::line_v(
                        half_row_v(lv, k, left_w as int).push(
                            style::styled_v(" │ "@, style::fg_v(theme.chrome)),
                        ) + half_row_v(rv, k, right_w as int),
                    ),
            ),
            out.deep_view() =~= want.take(k as int),
        decreases n - k,
    {
        let mut spans = no_spans();
        push_half(&mut spans, &lhs, k, left_w);
        push_styled(&mut spans, " │ ", theme.chrome_style());
        push_half(&mut spans, &rhs, k, right_w);
        assert(spans.deep_view() =~= half_row_v(lv, k as int, left_w as int).push(
            style::styled_v(" │ "@, style::fg_v(theme.chrome)),
        ) + half_row_v(rv, k as int, right_w as int));
        push_line(&mut out, Line::from_spans(spans));
        k = k + 1;
    }
    assert(out.deep_view() =~= want);
    out
}

// ---- Separators ----

/// A number, or zero.
pub open spec fn or_zero_v(n: Option<int>) -> int {
    match n {
        Some(n) => n,
        None => 0,
    }
}

/// The largest number that a line has on either side; zero where there is no line.
pub open spec fn largest_number_v(lines: Seq<LineV>) -> int
    decreases lines.len(),
{
    if lines.len() == 0 {
        0
    } else {
        max_v(
            largest_number_v(lines.drop_last()),
            max_v(or_zero_v(lines.last().old_lineno()), or_zero_v(lines.last().new_lineno())),
        )
    }
}

/// How wide the column of line numbers is: as wide as the largest number, within bounds.
pub open spec fn gutter_width_v(lines: Seq<LineV>) -> nat {
    util::clamp_v(text::decimal_v(largest_number_v(lines) as nat).len() as int, 3, 6) as nat
}

/// The text of a hunk's separator.
pub open spec fn hunk_spans_v(h: HunkV, idx: int, total: nat, theme: Theme) -> Seq<SpanV> {
    let chrome = style::fg_v(theme.chrome);
    let first = seq![
        style::styled_v(
            "  ── hunk "@ + text::decimal_v((idx + 1) as nat) + " of "@ + text::decimal_v(total) + " "@,
            chrome,
        ),
    ];
    match h.function_context {
        Some(ctx) => first.push(style::styled_v("──── "@, chrome)).push(
            style::styled_v(ctx, style::fg_v(theme.secondary)),
        ).push(style::raw_v(" "@)),
        None => first,
    }
}

/// The separator before a hunk: its number, the function that encloses it, and a rule.
pub open spec fn hunk_separator_v(h: HunkV, idx: int, total: nat, w: int, theme: Theme) -> TextV {
    let spans = hunk_spans_v(h, idx, total, theme);
    style::line_v(
        spans.push(
            style::styled_v(
                text::repeat_v('─', style::gap_v(w, style::spans_width_v(spans))),
                style::fg_v(theme.chrome),
            ),
        ),
    )
}

/// The text of a fold.
pub open spec fn fold_label_v(hidden: nat) -> Seq<char> {
    "  ── "@ + text::decimal_v(hidden) + " unchanged "@ + (if hidden == 1 {
        "line"@
    } else {
        "lines"@
    }) + " (z to expand) "@
}

/// A band in place of folded lines.
pub open spec fn fold_band_v(hidden: nat, w: int, theme: Theme) -> TextV {
    let label = fold_label_v(hidden);
    style::line_v(
        seq![
            style::styled_v(label, style::fg_v(theme.tertiary)),
            style::styled_v(
                text::repeat_v('─', style::gap_v(w, width::str_width_v(label) as int)),
                style::fg_v(theme.chrome),
            ),
        ],
    )
}

/// How wide the column of line numbers is.
fn gutter_width(d: &DiffState) -> (r: usize)
    ensures
        r == gutter_width_v(d.deep_view().doc.lines),
        3 <= r <= 6,
{
    let ghost lines = d.deep_view().doc.lines;
    let mut largest: usize = 0;
    let mut i: usize = 0;
    while i < d.doc.lines.len()
        invariant
            i <= d.doc.lines@.len(),
            lines == d.deep_view().doc.lines,
            largest == largest_number_v(lines.take(i as int)),
        decreases d.doc.lines@.len() - i,
    {
        assert(lines.take(i + 1).drop_last() =~= lines.take(i as int));
        assert(lines[i as int] == d.doc.lines@[i as int].deep_view());
        if let Some(n) = d.doc.lines[i].old_lineno() {
            if n > largest {
                largest = n;
            }
        }
        if let Some(n) = d.doc.lines[i].new_lineno() {
            if n > largest {
                largest = n;
            }
        }
        i = i + 1;
    }
    assert(lines.take(lines.len() as int) =~= lines);
    let len: usize = chars_of(decimal_usize(largest).as_str()).len();
    if len < 3 {
        3
    } else if len > 6 {
        6
    } else {
        len
    }
}

/// The separator before a hunk.
fn hunk_separator(h: &Hunk, idx: usize, total: usize, w: u16, theme: &Theme) -> (r: Line)
    requires
        idx < total,
    ensures
        r.deep_view() == hunk_separator_v(h.deep_view(), idx as int, total as nat, w as int, *theme),
{
    let mut label = "  ── hunk ".to_owned();
    label.append(decimal_usize(idx + 1).as_str());
    label.append(" of ");
    label.append(decimal_usize(total).as_str());
    label.append(" ");
    let mut spans = no_spans();
    push_styled(&mut spans, label.as_str(), theme.chrome_style());
    if let Some(ctx) = &h.function_context {
        push_styled(&mut spans, "──── ", theme.chrome_style());
        push_styled(&mut spans, ctx.as_str(), Style::with(theme.secondary));
        push_raw(&mut spans, " ");
    }
    assert(spans.deep_view() =~= hunk_spans_v(h.deep_view(), idx as int, total as nat, *theme));
    proof {
        widgets::lemma_width_nonneg(spans.deep_view());
    }
    let used: usize = spans_width(&spans);
    let fill: usize = (w as usize).saturating_sub(used);
    push_styled(&mut spans, repeat('─', fill).as_str(), theme.chrome_style());
    Line::from_spans(spans)
}

/// A band in place of folded lines.
fn fold_band(hidden: usize, w: u16, theme: &Theme) -> (r: Line)
    ensures
        r.deep_view() == fold_band_v(hidden as nat, w as int, *theme),
{
    let mut label = "  ── ".to_owned();
    label.append(decimal_usize(hidden).as_str());
    label.append(" unchanged ");
    if hidden == 1 {
        label.append("line");
    } else {
        label.append("lines");
    }
    label.append(" (z to expand) ");
    let fill: usize = (w as usize).saturating_sub(str_width(label.as_str()));
    let mut spans = no_spans();
    push_styled(&mut spans, label.as_str(), theme.dim());
    push_styled(&mut spans, repeat('─', fill).as_str(), theme.chrome_style());
    assert(spans.deep_view() =~= fold_band_v(hidden as nat, w as int, *theme).spans);
    Line::from_spans(spans)
}

// ---- The body ----

/// The lines that a row takes on screen.
pub open spec fn row_lines_v(d: DiffV, row: DisplayRow, gutter: nat, w: int, theme: Theme) -> Seq<TextV> {
    match row {
        DisplayRow::HunkSep { hunk } => seq![
            hunk_separator_v(d.doc.hunks[hunk as int], hunk as int, d.doc.hunks.len(), w, theme),
        ],
        DisplayRow::Fold { start, hidden } => seq![fold_band_v(hidden as nat, w, theme)],
        DisplayRow::Line { idx } => seq![unified_line_v(d, idx as int, gutter, w, theme)],
        DisplayRow::SideLine { left, right } => side_row_v(d, left, right, gutter, w, theme),
    }
}

/// The lines of the rows from `i` on, behind `out`, until there are enough.
pub open spec fn fill_v(
    d: DiffV,
    gutter: nat,
    w: int,
    theme: Theme,
    want: int,
    i: int,
    out: Seq<TextV>,
) -> Seq<TextV>
    decreases d.rows.len() - i,
{
    if i >= d.rows.len() || out.len() >= want {
        out
    } else {
        fill_v(
            d,
            gutter,
            w,
            theme,
            want,
            i + 1,
            out + row_lines_v(d, d.rows[i], gutter, w, theme),
        )
    }
}

/// The visible lines: those of the rows from the top of the view on, as many as fit.
pub open spec fn body_lines_v(d: DiffV, w: int, height: int, theme: Theme) -> Seq<TextV> {
    let all = fill_v(
        d,
        gutter_width_v(d.doc.lines),
        w,
        theme,
        height,
        d.scroll,
        Seq::empty(),
    );
    all.take(layout::min_v(all.len() as int, height))
}

/// The lines that a row takes on screen.
fn push_row(out: &mut Vec<Line>, d: &DiffState, row: DisplayRow, gutter: usize, w: u16, theme: &Theme)
    requires
        motion::row_within(row, d.doc.lines@.len()),
        row matches DisplayRow::HunkSep { hunk } ==> hunk < d.doc.hunks@.len(),
        gutter <= 6,
    ensures
        final(out).deep_view() == old(out).deep_view() + row_lines_v(
            d.deep_view(),
            row,
            gutter as nat,
            w as int,
            *theme,
        ),
{
    match row {
        DisplayRow::HunkSep { hunk } => {
            assert(d.deep_view().doc.hunks[hunk as int] == d.doc.hunks@[hunk as int].deep_view());
            push_line(out, hunk_separator(&d.doc.hunks[hunk], hunk, d.doc.hunks.len(), w, theme));
        },
        DisplayRow::Fold { hidden, .. } => {
            push_line(out, fold_band(hidden, w, theme));
        },
        DisplayRow::Line { idx } => {
            push_line(out, unified_line(d, idx, gutter, w, theme));
        },
        DisplayRow::SideLine { left, right } => {
            let lines = side_row(d, left, right, gutter, w, theme);
            push_lines(out, &lines);
        },
    }
    assert(out.deep_view() =~= old(out).deep_view() + row_lines_v(
        d.deep_view(),
        row,
        gutter as nat,
        w as int,
        *theme,
    ));
}

/// The visible lines.
pub fn body_lines(d: &DiffState, w: u16, height: u16, theme: &Theme) -> (r: Vec<Line>)
    requires
        d.deep_view().wf(),
    ensures
        r.deep_view() == body_lines_v(d.deep_view(), w as int, height as int, *theme),
{
    let ghost dv = d.deep_view();
    let count: usize = d.doc.lines.len();
    proof {
        assert(dv.doc.lines.len() == count);
        reveal(DiffV::wf);
        coverage::lemma_rows_within(dv.doc, dv.expanded, dv.mode == ViewMode::SideBySide);
        coverage::lemma_seps_within(dv.doc, dv.expanded, dv.mode == ViewMode::SideBySide);
    }
    let gutter: usize = gutter_width(d);
    let rows: usize = height as usize;
    let ghost want = fill_v(
        dv,
        gutter as nat,
        w as int,
        *theme,
        height as int,
        dv.scroll,
        Seq::empty(),
    );
    let mut lines = no_lines();
    let mut i: usize = d.scroll;
    while i < d.rows.len() && lines.len() < rows
        invariant
            dv == d.deep_view(),
            gutter <= 6,
            rows == height,
            motion::rows_within(dv.rows, dv.doc.lines.len()),
            coverage::seps_within(dv.rows, dv.doc.hunks.len()),
            want == fill_v(
                dv,
                gutter as nat,
                w as int,
                *theme,
                height as int,
                i as int,
                lines.deep_view(),
            ),
        decreases d.rows@.len() - i,
    {
        assert(motion::row_within(dv.rows[i as int], dv.doc.lines.len()));
        push_row(&mut lines, d, d.rows[i], gutter, w, theme);
        i = i + 1;
    }
    assert(lines.deep_view() =~= want);
    let mut out = no_lines();
    let mut k: usize = 0;
    while k < lines.len() && k < rows
        invariant
            k <= lines@.len(),
            k <= rows,
            want == lines.deep_view(),
            out.deep_view() =~= want.take(k as int),
        decreases lines@.len() - k,
    {
        assert(want[k as int] == lines@[k as int].deep_view());
        push_line(&mut out, lines[k].clone());
        k = k + 1;
    }
    out
}

} // verus!
