//! The overlay that asks for a commit message.
use vstd::prelude::*;
use vstd::string::*;

use crate::style;
use crate::ui::layout;
use crate::util;
use crate::commit::{Prompting, PromptingV};
use crate::style::{Line, Style, TextV, no_lines, no_spans, push_line, push_raw, push_styled};
use crate::theme::Theme;
use crate::ui::layout::{Op, OpV, Rect, boxed};
use crate::util::{plural, truncate_left};

verus! {

/// The height of the overlay.
pub const HEIGHT: u16 = 8;

/// The width of the overlay.
pub open spec fn width_v(area: Rect, most: int) -> int {
    layout::min_v(most, layout::less_v(area.width as int, 2))
}

/// A field that is typed into: its end, as far as it fits, and a cursor.
pub open spec fn field_v(input: Seq<char>, popup: Rect, theme: Theme) -> TextV {
    let accent = style::fg_v(theme.accent);
    style::line_v(
        seq![
            style::styled_v("> "@, accent),
            style::raw_v(util::truncate_left_v(input, layout::less_v(layout::less_v(popup.width as int, 2), 4))),
            style::styled_v("▏"@, accent),
        ],
    )
}

/// The text of the overlay.
pub open spec fn commit_lines_v(p: PromptingV, branch: Seq<char>, popup: Rect, theme: Theme) -> Seq<
    TextV,
> {
    let plain = style::fg_v(theme.secondary);
    seq![
        style::line_v(
            seq![
                style::styled_v("Commit "@, plain),
                style::styled_v(util::plural_v(p.files.len(), "reviewed file"@), style::bold_v()),
                style::styled_v(" to "@, plain),
                style::styled_v(branch, style::bold_v()),
            ],
        ),
        style::text_line_v("Enter a commit message:"@, style::fg_v(theme.tertiary)),
        field_v(p.input, popup, theme),
        style::blank_v(),
        match p.notice {
            Some(n) => style::text_line_v(n, style::fg_v(theme.removed)),
            None => style::text_line_v("enter to commit · esc to cancel"@, style::fg_v(theme.tertiary)),
        },
    ]
}

/// What the overlay shows.
pub open spec fn scene_v(p: PromptingV, branch: Seq<char>, theme: Theme, popup: Rect) -> Seq<OpV> {
    layout::box_v(
        popup,
        " Commit reviewed files "@,
        style::fg_v(theme.accent).with_bold_v(),
        style::fg_v(theme.chrome),
        commit_lines_v(p, branch, popup, theme),
    )
}

/// The width of an overlay that is at most so wide.
pub fn width(area: Rect, most: u16) -> (r: u16)
    ensures
        r == width_v(area, most as int),
{
    let wide: u16 = area.width.saturating_sub(2);
    if wide < most {
        wide
    } else {
        most
    }
}

/// A field that is typed into.
pub fn field(input: &str, popup: Rect, theme: &Theme) -> (r: Line)
    ensures
        r.deep_view() == field_v(input@, popup, *theme),
{
    let room: usize = (popup.width.saturating_sub(2) as usize).saturating_sub(4);
    let mut spans = no_spans();
    push_styled(&mut spans, "> ", Style::with(theme.accent));
    push_raw(&mut spans, truncate_left(input, room).as_str());
    push_styled(&mut spans, "▏", Style::with(theme.accent));
    assert(spans.deep_view() =~= field_v(input@, popup, *theme).spans);
    Line::from_spans(spans)
}

/// What the overlay shows. In the view of uncommitted changes the base is the branch.
pub fn scene(p: &Prompting, branch: &str, theme: &Theme, popup: Rect) -> (r: Vec<Op>)
    ensures
        r.deep_view() == scene_v(p.deep_view(), branch@, *theme, popup),
{
    let mut head = no_spans();
    push_styled(&mut head, "Commit ", Style::with(theme.secondary));
    push_styled(
        &mut head,
        plural(p.files.len(), "reviewed file").as_str(),
        Style::plain().bold(),
    );
    push_styled(&mut head, " to ", Style::with(theme.secondary));
    push_styled(&mut head, branch, Style::plain().bold());
    let mut lines = no_lines();
    push_line(&mut lines, Line::from_spans(head));
    push_line(&mut lines, Line::text("Enter a commit message:", theme.dim()));
    push_line(&mut lines, field(p.input.as_str(), popup, theme));
    push_line(&mut lines, Line::blank());
    match &p.notice {
        Some(n) => {
            push_line(&mut lines, Line::text(n.as_str(), theme.removed_style()));
        },
        None => {
            push_line(&mut lines, Line::text("enter to commit · esc to cancel", theme.dim()));
        },
    }
    assert(lines.deep_view()[0].spans =~= commit_lines_v(
        p.deep_view(),
        branch@,
        popup,
        *theme,
    )[0].spans);
    assert(lines.deep_view() =~= commit_lines_v(p.deep_view(), branch@, popup, *theme));
    boxed(
        popup,
        " Commit reviewed files ",
        Style::with(theme.accent).bold(),
        theme.chrome_style(),
        lines,
    )
}

} // verus!
