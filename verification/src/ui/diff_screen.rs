//! The screen of the diff view: the header of the file, related files, the diff and hints.
use vstd::prelude::*;
use vstd::string::*;

use crate::app;
use crate::style;
use crate::text;
use crate::ui::layout;
use crate::ui::widgets;
use crate::util;
use crate::app::{App, AppV, Screen};
use crate::app::rows::{DiffState, DiffV, RelatedEntry, RelatedV, ViewMode};
use crate::git::model::{FileChange, FileV, Special};
use crate::style::{
    Line, Span, SpanV, Style, TextV, no_lines, no_spans, push_line, push_raw, push_styled,
};
use crate::text::{char_text, chars_of, decimal_usize, repeat};
use crate::theme::Theme;
use crate::ui::diffview;
use crate::ui::diffview::body_lines;
use crate::ui::layout::{Op, OpV, Rect, append_ops, no_ops, push_op};
use crate::ui::widgets::{footer, justified, one_line, push_dot, rule, signed_count};
use crate::util::{format_bytes, truncate_left};

verus! {

/// The areas of the screen.
#[derive(Clone, Copy)]
pub struct DiffAreas {
    pub header: Rect,
    pub related: Rect,
    pub body: Rect,
    pub rule: Rect,
    pub hints: Rect,
}

// ---- Header ----

/// The path of a file, with the path that it had.
pub open spec fn full_path_v(f: FileV) -> Seq<char> {
    match f.old_path {
        Some(o) => o + " → "@ + f.path,
        None => f.path,
    }
}

/// The left part of the header.
pub open spec fn header_left_v(f: FileV, viewed: bool, theme: Theme) -> Seq<SpanV> {
    seq![
        style::raw_v("  "@),
        widgets::dot_v(viewed, theme),
        style::raw_v(" "@),
        style::styled_v(seq![f.status.letter_v()], theme.status_style_v(f.status)),
        style::raw_v(" "@),
        style::styled_v(full_path_v(f), style::bold_v()),
        style::raw_v("   "@),
        style::styled_v("+"@ + text::decimal_v(f.additions as nat), style::fg_v(theme.added)),
        style::raw_v(" / "@),
        style::styled_v("-"@ + text::decimal_v(f.deletions as nat), style::fg_v(theme.removed)),
    ]
}

/// The right part of the header.
pub open spec fn header_right_v(pos: nat, total: nat, theme: Theme) -> Seq<SpanV> {
    let dim = style::fg_v(theme.tertiary);
    seq![
        style::styled_v("file "@ + text::decimal_v(pos) + " of "@ + text::decimal_v(total), dim),
        style::styled_v("    o overview  "@, dim),
    ]
}

/// The header: the file, its changes, and its place in the list.
pub open spec fn file_header_v(app: AppV, d: DiffV, w: int) -> Seq<TextV> {
    let f = app.changeset.files[d.file_index];
    let theme = app.theme;
    seq![
        widgets::rule_v(w, theme),
        widgets::justified_v(
            header_left_v(f, app.viewed.set.contains(f.content_hash), theme),
            header_right_v((app.ov.selected + 1) as nat, app.ov.order.len(), theme),
            w,
        ),
        widgets::rule_v(w, theme),
    ]
}

/// The left part of the header.
fn header_left(f: &FileChange, viewed: bool, theme: &Theme) -> (r: Vec<Span>)
    ensures
        r.deep_view() == header_left_v(f.deep_view(), viewed, *theme),
{
    let mut path = String::new();
    if let Some(o) = &f.old_path {
        path.append(o.as_str());
        path.append(" → ");
    }
    path.append(f.path.as_str());
    assert(path@ =~= full_path_v(f.deep_view()));
    let mut spans = no_spans();
    push_raw(&mut spans, "  ");
    push_dot(&mut spans, viewed, theme);
    push_raw(&mut spans, " ");
    push_styled(&mut spans, char_text(f.status.letter()).as_str(), theme.status_style(f.status));
    push_raw(&mut spans, " ");
    push_styled(&mut spans, path.as_str(), Style::plain().bold());
    push_raw(&mut spans, "   ");
    push_styled(&mut spans, signed_count("+", f.additions).as_str(), theme.added_style());
    push_raw(&mut spans, " / ");
    push_styled(&mut spans, signed_count("-", f.deletions).as_str(), theme.removed_style());
    assert(spans.deep_view() =~= header_left_v(f.deep_view(), viewed, *theme));
    spans
}

/// The header.
fn file_header(app: &App, d: &DiffState, w: u16) -> (r: Vec<Line>)
    requires
        app.wf(),
        d.file_index < app@.changeset.files.len(),
    ensures
        r.deep_view() == file_header_v(app@, d.deep_view(), w as int),
{
    let theme = &app.theme;
    let f = &app.changeset.files[d.file_index];
    assert(app@.changeset.files[d.file_index as int] == f.deep_view());
    let viewed: bool = app.is_viewed(d.file_index);
    let left = header_left(f, viewed, theme);
    let total: usize = app.ov.order.len();
    let mut place = "file ".to_owned();
    let pos: usize = app.ov.selected + 1;
    place.append(decimal_usize(pos).as_str());
    place.append(" of ");
    place.append(decimal_usize(total).as_str());
    let mut right = no_spans();
    push_styled(&mut right, place.as_str(), theme.dim());
    push_styled(&mut right, "    o overview  ", theme.dim());
    assert(right.deep_view() =~= header_right_v(pos as nat, total as nat, *theme));
    let mut lines = no_lines();
    push_line(&mut lines, rule(w, theme));
    push_line(&mut lines, justified(left, right, w));
    push_line(&mut lines, rule(w, theme));
    assert(lines.deep_view() =~= file_header_v(app@, d.deep_view(), w as int));
    lines
}

// ---- Related files ----

/// The column where what is said of related files starts.
pub open spec fn path_col_v(w: int) -> int {
    util::clamp_v(layout::less_v(w, 30), 20, 48)
}

/// A related file: its path, and how it relates.
pub open spec fn related_line_v(f: FileV, e: RelatedV, path_col: int, theme: Theme) -> TextV {
    let path = util::truncate_left_v(f.path, layout::less_v(path_col, 6));
    let dim = style::fg_v(theme.tertiary);
    style::line_v(
        seq![
            style::raw_v("    "@),
            style::styled_v(path, style::fg_v(theme.renamed)),
            style::raw_v(text::repeat_v(' ', layout::less_v(path_col, path.len() as int + 4) as nat)),
            style::styled_v(e.verb.label_v() + " "@, dim),
            style::styled_v(e.sample, style::fg_v(theme.secondary)),
            style::styled_v(
                if e.count > 1 {
                    " (+"@ + text::decimal_v((e.count - 1) as nat) + " more)"@
                } else {
                    Seq::empty()
                },
                dim,
            ),
        ],
    )
}

/// The related files, under a title.
pub open spec fn related_lines_v(files: Seq<FileV>, related: Seq<RelatedV>, w: int, theme: Theme) -> Seq<
    TextV,
> {
    seq![style::line_v(seq![style::raw_v("  "@), style::styled_v("Related in this PR"@, style::fg_v(theme.accent))])]
        + related.map_values(
        |e: RelatedV| related_line_v(files[e.file_index], e, path_col_v(w), theme),
    )
}

/// A related file.
fn related_line(f: &FileChange, e: &RelatedEntry, path_col: usize, theme: &Theme) -> (r: Line)
    ensures
        r.deep_view() == related_line_v(f.deep_view(), e.deep_view(), path_col as int, *theme),
{
    let path = truncate_left(f.path.as_str(), path_col.saturating_sub(6));
    let used: usize = chars_of(path.as_str()).len().saturating_add(4);
    let pad: usize = path_col.saturating_sub(used);
    let mut verb = e.verb.label().to_owned();
    verb.append(" ");
    let mut extra = String::new();
    if e.count > 1 {
        extra.append(" (+");
        extra.append(decimal_usize(e.count - 1).as_str());
        extra.append(" more)");
    }
    let mut spans = no_spans();
    push_raw(&mut spans, "    ");
    push_styled(&mut spans, path.as_str(), Style::with(theme.renamed));
    push_raw(&mut spans, repeat(' ', pad).as_str());
    push_styled(&mut spans, verb.as_str(), theme.dim());
    push_styled(&mut spans, e.sample.as_str(), Style::with(theme.secondary));
    push_styled(&mut spans, extra.as_str(), theme.dim());
    assert(extra@ =~= (if e.count > 1 {
        " (+"@ + text::decimal_v((e.count - 1) as nat) + " more)"@
    } else {
        Seq::empty()
    }));
    assert(spans.deep_view() =~= related_line_v(
        f.deep_view(),
        e.deep_view(),
        path_col as int,
        *theme,
    ).spans);
    Line::from_spans(spans)
}

/// The related files, under a title.
fn related_lines(app: &App, d: &DiffState, w: u16) -> (r: Vec<Line>)
    requires
        app::shows(d.deep_view(), app@.changeset.files.len()),
    ensures
        r.deep_view() == related_lines_v(
            app@.changeset.files,
            d.deep_view().related,
            w as int,
            app@.theme,
        ),
{
    let theme = &app.theme;
    let ghost files = app@.changeset.files;
    let ghost rel = d.deep_view().related;
    let wide: usize = (w as usize).saturating_sub(30);
    let path_col: usize = if wide < 20 {
        20
    } else if wide > 48 {
        48
    } else {
        wide
    };
    let mut title = no_spans();
    push_raw(&mut title, "  ");
    push_styled(&mut title, "Related in this PR", Style::with(theme.accent));
    assert(title.deep_view() =~= seq![
        style::raw_v("  "@),
        style::styled_v("Related in this PR"@, style::fg_v(theme.accent)),
    ]);
    let mut lines = no_lines();
    push_line(&mut lines, Line::from_spans(title));
    let ghost want = related_lines_v(files, rel, w as int, *theme);
    assert(lines.deep_view() =~= want.take(1));
    let mut i: usize = 0;
    while i < d.related.len()
        invariant
            i <= d.related@.len(),
            files == app@.changeset.files,
            rel == d.deep_view().related,
            app::shows(d.deep_view(), files.len()),
            path_col == path_col_v(w as int),
            *theme == app.theme,
            want == related_lines_v(files, rel, w as int, *theme),
            lines.deep_view() =~= want.take(i + 1),
        decreases d.related@.len() - i,
    {
        assert(rel[i as int] == d.related@[i as int].deep_view());
        let at: usize = d.related[i].file_index;
        assert(files[at as int] == app.changeset.files@[at as int].deep_view());
        let line = related_line(&app.changeset.files[at], &d.related[i], path_col, theme);
        assert(want[i + 1] == line.deep_view());
        push_line(&mut lines, line);
        i = i + 1;
    }
    assert(lines.deep_view() =~= want);
    lines
}

// ---- Hints ----

/// The hints of the screen.
pub open spec fn diff_hints_v(mode: ViewMode) -> Seq<(Seq<char>, Seq<char>)> {
    seq![
        ("]h"@, "hunk"@),
        ("]f"@, "file"@),
        ("v"@, "viewed"@),
        (
            "s"@,
            match mode {
                ViewMode::SideBySide => "unified"@,
                ViewMode::Unified => "side-by-side"@,
            },
        ),
        ("/"@, "search"@),
        ("o"@, "overview"@),
        ("?"@, "help"@),
        ("q"@, "quit"@),
    ]
}

/// The last line of the screen: the search that is typed, a message, or hints.
pub open spec fn diff_footer_v(app: AppV, d: DiffV) -> TextV {
    let theme = app.theme;
    if app.diff_searching {
        style::line_v(
            seq![
                style::styled_v(" /"@ + d.search, style::fg_v(theme.accent)),
                style::styled_v("_"@, style::fg_v(theme.accent)),
                style::styled_v(
                    "   "@ + text::decimal_v(d.matches.len())
                        + " matches  (enter to keep, esc to cancel)"@,
                    style::fg_v(theme.tertiary),
                ),
            ],
        )
    } else {
        widgets::footer_v(diff_hints_v(d.mode), app.flash, theme)
    }
}

/// The last line of the screen.
fn diff_footer(app: &App, d: &DiffState) -> (r: Line)
    ensures
        r.deep_view() == diff_footer_v(app@, d.deep_view()),
{
    let theme = &app.theme;
    if app.diff_searching {
        let mut typed = " /".to_owned();
        typed.append(d.search.as_str());
        let mut note = "   ".to_owned();
        note.append(decimal_usize(d.matches.len()).as_str());
        note.append(" matches  (enter to keep, esc to cancel)");
        let mut spans = no_spans();
        push_styled(&mut spans, typed.as_str(), Style::with(theme.accent));
        push_styled(&mut spans, "_", Style::with(theme.accent));
        push_styled(&mut spans, note.as_str(), theme.dim());
        assert(spans.deep_view() =~= diff_footer_v(app@, d.deep_view()).spans);
        return Line::from_spans(spans);
    }
    let other: &'static str = match d.mode {
        ViewMode::SideBySide => "unified",
        ViewMode::Unified => "side-by-side",
    };
    let hints: Vec<(&'static str, &'static str)> = vec![
        ("]h", "hunk"),
        ("]f", "file"),
        ("v", "viewed"),
        ("s", other),
        ("/", "search"),
        ("o", "overview"),
        ("?", "help"),
        ("q", "quit"),
    ];
    assert(widgets::hints_view(hints@) =~= diff_hints_v(d.mode));
    footer(&hints, &app.flash, theme)
}

// ---- The screen ----

/// A message in place of a diff, in the middle.
pub open spec fn notice_v(area: Rect, msg: Seq<char>, theme: Theme) -> OpV {
    OpV::Text {
        area,
        lines: seq![style::text_line_v(msg, style::fg_v(theme.tertiary))],
        centered: true,
    }
}

/// What is said of a binary file.
pub open spec fn binary_v(old_size: u64, new_size: u64) -> Seq<char> {
    "Binary file changed ("@ + util::format_bytes_v(old_size as int) + " → "@ + util::format_bytes_v(
        new_size as int,
    ) + ")"@
}

impl DiffV {
    /// With the height of the view.
    pub open spec fn sized(self, height: int) -> DiffV {
        DiffV { viewport_rows: height, ..self }
    }

    /// Scrolled back where there would be empty space below the diff.
    pub open spec fn kept_in_view(self, height: int) -> DiffV {
        let max = layout::less_v(self.total_rows, height);
        DiffV {
            scroll: if self.scroll > max {
                max
            } else {
                self.scroll
            },
            ..self
        }
    }
}

/// The body of the screen: the visible part of the diff, or a message where there is none. What is
/// visible is kept in the state.
pub open spec fn body_v(f: FileV, d: DiffV, area: Rect, theme: Theme) -> (DiffV, Seq<OpV>) {
    let height = area.height as int;
    let sized = d.sized(height);
    if height == 0 {
        (d, Seq::empty())
    } else {
        match f.special {
            Special::Binary { old_size, new_size } => (
                sized,
                seq![notice_v(area, binary_v(old_size, new_size), theme)],
            ),
            _ => if d.rows.len() == 0 {
                (
                    sized,
                    seq![
                        notice_v(
                            area,
                            if f.old_path is Some {
                                "No content changes (file renamed)."@
                            } else {
                                "No changes."@
                            },
                            theme,
                        ),
                    ],
                )
            } else {
                let kept = sized.kept_in_view(height);
                (
                    kept,
                    seq![
                        layout::text_op_v(
                            area,
                            diffview::body_lines_v(kept, area.width as int, height, theme),
                        ),
                    ],
                )
            },
        }
    }
}

/// What the screen shows, and the state that is left.
pub open spec fn scene_v(app: AppV, a: DiffAreas) -> (AppV, Seq<OpV>) {
    match app.diff {
        None => (app, Seq::empty()),
        Some(d) => {
            let files = app.changeset.files;
            let (e, body) = body_v(files[d.file_index], d, a.body, app.theme);
            let header = seq![
                layout::text_op_v(a.header, file_header_v(app, d, app.width as int)),
            ];
            let related = if d.related.len() > 0 {
                seq![
                    layout::text_op_v(
                        a.related,
                        related_lines_v(files, d.related, a.related.width as int, app.theme),
                    ),
                ]
            } else {
                Seq::empty()
            };
            (
                app.with_diff(e),
                header + related + body + seq![
                    layout::text_op_v(
                        a.rule,
                        seq![widgets::rule_v(a.rule.width as int, app.theme)],
                    ),
                    layout::text_op_v(a.hints, seq![diff_footer_v(app, d)]),
                ],
            )
        },
    }
}

/// A message in place of a diff.
fn notice(area: Rect, msg: &str, theme: &Theme) -> (r: Op)
    ensures
        r.deep_view() == notice_v(area, msg@, *theme),
{
    Op::Text { area, lines: one_line(Line::text(msg, theme.dim())), centered: true }
}

/// The body of the screen. What is visible is kept in the state of the diff.
fn body(f: &FileChange, d: &mut DiffState, area: Rect, theme: &Theme) -> (r: Vec<Op>)
    requires
        old(d).deep_view().wf(),
    ensures
        final(d).deep_view().wf(),
        (final(d).deep_view(), r.deep_view()) == body_v(
            f.deep_view(),
            old(d).deep_view(),
            area,
            *theme,
        ),
{
    let mut ops = no_ops();
    if area.height == 0 {
        return ops;
    }
    proof {
        reveal(DiffV::wf);
    }
    let rows: usize = area.height as usize;
    d.viewport_rows = rows;
    if let Special::Binary { old_size, new_size } = f.special {
        let mut msg = "Binary file changed (".to_owned();
        msg.append(format_bytes(old_size).as_str());
        msg.append(" → ");
        msg.append(format_bytes(new_size).as_str());
        msg.append(")");
        push_op(&mut ops, notice(area, msg.as_str(), theme));
        return ops;
    }
    if d.rows.len() == 0 {
        let msg: &'static str = if f.old_path.is_some() {
            "No content changes (file renamed)."
        } else {
            "No changes."
        };
        push_op(&mut ops, notice(area, msg, theme));
        return ops;
    }
    let max: usize = d.total_rows.saturating_sub(rows);
    if d.scroll > max {
        d.scroll = max;
    }
    let lines = body_lines(d, area.width, area.height, theme);
    push_op(&mut ops, Op::Text { area, lines, centered: false });
    ops
}

/// What stands above the body: the header, and the related files where there are any.
fn above(app: &App, d: &DiffState, a: DiffAreas) -> (r: Vec<Op>)
    requires
        app.wf(),
        app::shows(d.deep_view(), app@.changeset.files.len()),
    ensures
        r.deep_view() == seq![
            layout::text_op_v(a.header, file_header_v(app@, d.deep_view(), app@.width as int)),
        ] + (if d.deep_view().related.len() > 0 {
            seq![
                layout::text_op_v(
                    a.related,
                    related_lines_v(
                        app@.changeset.files,
                        d.deep_view().related,
                        a.related.width as int,
                        app@.theme,
                    ),
                ),
            ]
        } else {
            Seq::empty()
        }),
{
    let mut ops = no_ops();
    let lines = file_header(app, d, app.width);
    push_op(&mut ops, Op::Text { area: a.header, lines, centered: false });
    assert(ops.deep_view() =~= seq![
        layout::text_op_v(a.header, file_header_v(app@, d.deep_view(), app@.width as int)),
    ]);
    if d.related.len() > 0 {
        let lines = related_lines(app, d, a.related.width);
        let ghost lv = lines.deep_view();
        let ghost before = ops.deep_view();
        push_op(&mut ops, Op::Text { area: a.related, lines, centered: false });
        assert(ops.deep_view() =~= before + seq![layout::text_op_v(a.related, lv)]);
    }
    ops
}

/// What stands below the body: a rule, and the last line.
fn below(app: &App, d: &DiffState, a: DiffAreas) -> (r: Vec<Op>)
    ensures
        r.deep_view() == seq![
            layout::text_op_v(a.rule, seq![widgets::rule_v(a.rule.width as int, app@.theme)]),
            layout::text_op_v(a.hints, seq![diff_footer_v(app@, d.deep_view())]),
        ],
{
    let mut ops = no_ops();
    let lines = one_line(rule(a.rule.width, &app.theme));
    push_op(&mut ops, Op::Text { area: a.rule, lines, centered: false });
    let lines = one_line(diff_footer(app, d));
    push_op(&mut ops, Op::Text { area: a.hints, lines, centered: false });
    assert(ops.deep_view() =~= seq![
        layout::text_op_v(a.rule, seq![widgets::rule_v(a.rule.width as int, app@.theme)]),
        layout::text_op_v(a.hints, seq![diff_footer_v(app@, d.deep_view())]),
    ]);
    ops
}

/// What the screen shows. What is visible is kept in the state.
pub fn scene(app: &mut App, a: DiffAreas) -> (r: Vec<Op>)
    requires
        old(app).wf(),
        old(app)@.screen == Screen::Diff,
    ensures
        final(app).wf(),
        (final(app)@, r.deep_view()) == scene_v(old(app)@, a),
{
    let (mut ops, last): (Vec<Op>, Vec<Op>) = match &app.diff {
        None => {
            return no_ops();
        },
        Some(d) => (above(app, d, a), below(app, d, a)),
    };
    let theme: Theme = app.theme;
    let middle: Vec<Op> = match &mut app.diff {
        None => no_ops(),
        Some(d) => {
            let at: usize = d.file_index;
            let ghost files = app.changeset.deep_view().files;
            assert(files[at as int] == app.changeset.files@[at as int].deep_view());
            body(&app.changeset.files[at], d, a.body, &theme)
        },
    };
    append_ops(&mut ops, middle);
    append_ops(&mut ops, last);
    ops
}

} // verus!
