//! The overlay that lists the commits of the range.
use vstd::prelude::*;
use vstd::string::*;

use crate::git::model;
use crate::style;
use crate::text;
use crate::ui::layout;
use crate::util;
use crate::git::model::{CommitInfo, CommitV};
use crate::style::{Line, Style, TextV, no_lines, no_spans, push_line, push_raw, push_styled};
use crate::text::{chars_of, decimal_usize, pad_right, slice_string};
use crate::theme::Theme;
use crate::ui::help::{fitting};
use crate::ui::layout::{Op, OpV, Rect, boxed};
use crate::util::truncate_right;

verus! {

broadcast use vstd::seq_lib::group_seq_properties;

/// The width of the overlay.
pub open spec fn width_v(area: Rect) -> int {
    layout::min_v(76, layout::less_v(area.width as int, 2))
}

/// How many commits are listed.
pub open spec fn max_rows_v(area: Rect) -> int {
    let rows = layout::less_v(area.height as int, 6);
    if rows > 1 {
        rows
    } else {
        1
    }
}

/// The first eight characters of a text.
pub open spec fn short_v(s: Seq<char>) -> Seq<char> {
    s.take(layout::min_v(s.len() as int, 8))
}

/// A commit: the start of its id, its author and its summary.
pub open spec fn commit_line_v(c: CommitV, width: int, theme: Theme) -> TextV {
    let room = layout::less_v(layout::less_v(width, 2), 29);
    let summary_w = if room > 8 {
        room
    } else {
        8
    };
    style::line_v(
        seq![
            style::styled_v(short_v(model::hex_bytes_v(c.id)), style::fg_v(theme.modified)),
            style::raw_v("  "@),
            style::styled_v(text::pad_right_v(util::truncate_right_v(c.author, 16), 16), style::fg_v(theme.tertiary)),
            style::raw_v("  "@),
            style::raw_v(util::truncate_right_v(c.summary, summary_w)),
        ],
    )
}

/// The text of the overlay: the newest commits, and how many more there are.
pub open spec fn commits_lines_v(commits: Seq<CommitV>, area: Rect, theme: Theme) -> Seq<TextV> {
    let dim = style::fg_v(theme.tertiary);
    let rows = max_rows_v(area);
    let shown = commits.take(layout::min_v(commits.len() as int, rows));
    seq![
        style::text_line_v(
            "Full commit-by-commit review lands in v2. For now, the range contains:"@,
            dim,
        ),
        style::blank_v(),
    ] + shown.map_values(|c: CommitV| commit_line_v(c, width_v(area), theme)) + (if commits.len()
        > rows {
        seq![
            style::text_line_v("… and "@ + text::decimal_v((commits.len() - rows) as nat) + " more"@, dim),
        ]
    } else {
        Seq::empty()
    }) + (if commits.len() == 0 {
        seq![style::text_line_v("(no commits in range)"@, dim)]
    } else {
        Seq::empty()
    }) + seq![style::blank_v(), style::text_line_v("press any key to close"@, dim)]
}

/// What the overlay shows.
pub open spec fn scene_v(commits: Seq<CommitV>, area: Rect, theme: Theme, popup: Rect) -> Seq<OpV> {
    layout::box_v(
        popup,
        " Commits ("@ + text::decimal_v(commits.len()) + ") "@,
        style::fg_v(theme.accent).with_bold_v(),
        style::fg_v(theme.chrome),
        commits_lines_v(commits, area, theme),
    )
}

/// A commit.
fn commit_line(c: &CommitInfo, width: u16, theme: &Theme) -> (r: Line)
    ensures
        r.deep_view() == commit_line_v(c.deep_view(), width as int, *theme),
{
    let hex = chars_of(c.id.to_hex().as_str());
    let end: usize = if hex.len() < 8 {
        hex.len()
    } else {
        8
    };
    let short = slice_string(&hex, 0, end);
    assert(short@ =~= short_v(model::hex_bytes_v(c.id.deep_view())));
    let author = truncate_right(c.author.as_str(), 16);
    let room: usize = (width.saturating_sub(2) as usize).saturating_sub(29);
    let summary_w: usize = if room > 8 {
        room
    } else {
        8
    };
    let mut spans = no_spans();
    push_styled(&mut spans, short.as_str(), Style::with(theme.modified));
    push_raw(&mut spans, "  ");
    push_styled(&mut spans, pad_right(author.as_str(), 16).as_str(), theme.dim());
    push_raw(&mut spans, "  ");
    push_raw(&mut spans, truncate_right(c.summary.as_str(), summary_w).as_str());
    assert(spans.deep_view() =~= commit_line_v(c.deep_view(), width as int, *theme).spans);
    Line::from_spans(spans)
}

/// The width of the overlay.
pub fn width(area: Rect) -> (r: u16)
    ensures
        r == width_v(area),
{
    let wide: u16 = area.width.saturating_sub(2);
    if wide < 76 {
        wide
    } else {
        76
    }
}

/// The text of the overlay.
pub fn commits_lines(commits: &Vec<CommitInfo>, area: Rect, theme: &Theme) -> (r: Vec<Line>)
    ensures
        r.deep_view() == commits_lines_v(commits.deep_view(), area, *theme),
{
    let ghost cs = commits.deep_view();
    let w: u16 = width(area);
    let most: u16 = area.height.saturating_sub(6);
    let rows: usize = if most > 1 {
        most as usize
    } else {
        1
    };
    let mut lines = no_lines();
    push_line(
        &mut lines,
        Line::text(
            "Full commit-by-commit review lands in v2. For now, the range contains:",
            theme.dim(),
        ),
    );
    push_line(&mut lines, Line::blank());
    let ghost head = lines.deep_view();
    let ghost listed = cs.take(layout::min_v(cs.len() as int, rows as int)).map_values(
        |c: CommitV| commit_line_v(c, w as int, *theme),
    );
    let mut i: usize = 0;
    while i < commits.len() && i < rows
        invariant
            i <= commits@.len(),
            i <= rows,
            cs == commits.deep_view(),
            listed == cs.take(layout::min_v(cs.len() as int, rows as int)).map_values(
                |c: CommitV| commit_line_v(c, w as int, *theme),
            ),
            lines.deep_view() =~= head + listed.take(i as int),
        decreases commits@.len() - i,
    {
        assert(cs[i as int] == commits@[i as int].deep_view());
        push_line(&mut lines, commit_line(&commits[i], w, theme));
        i = i + 1;
    }
    assert(listed.take(i as int) =~= listed);
    if commits.len() > rows {
        let mut s = "… and ".to_owned();
        s.append(decimal_usize(commits.len() - rows).as_str());
        s.append(" more");
        push_line(&mut lines, Line::text(s.as_str(), theme.dim()));
    }
    if commits.len() == 0 {
        push_line(&mut lines, Line::text("(no commits in range)", theme.dim()));
    }
    push_line(&mut lines, Line::blank());
    push_line(&mut lines, Line::text("press any key to close", theme.dim()));
    assert(lines.deep_view() =~= commits_lines_v(cs, area, *theme));
    lines
}

/// The size of the overlay: as high as its text and a frame, within the screen.
pub fn size(lines: usize, area: Rect) -> (r: (u16, u16))
    ensures
        r.0 == width_v(area),
        r.1 == layout::min_v(lines + 2, area.height as int),
{
    (width(area), fitting(lines, area.height))
}

/// What the overlay shows.
pub fn scene(commits: &Vec<CommitInfo>, area: Rect, theme: &Theme, popup: Rect) -> (r: Vec<Op>)
    ensures
        r.deep_view() == scene_v(commits.deep_view(), area, *theme, popup),
{
    let mut title = " Commits (".to_owned();
    title.append(decimal_usize(commits.len()).as_str());
    title.append(") ");
    boxed(
        popup,
        title.as_str(),
        Style::with(theme.accent).bold(),
        theme.chrome_style(),
        commits_lines(commits, area, theme),
    )
}

} // verus!
