//! The overlay that lists the keys.
use vstd::prelude::*;
use vstd::string::*;

use crate::style;
use crate::text;
use crate::ui::layout;
use crate::ui::widgets;
use crate::style::{Line, Style, TextV, no_lines, no_spans, push_line, push_raw, push_styled};
use crate::text::pad_right;
use crate::theme::Theme;
use crate::ui::layout::{Op, OpV, Rect, boxed};
use crate::ui::widgets::push_lines;

verus! {

broadcast use vstd::seq_lib::group_seq_properties;

/// The keys that work everywhere; `name` is who explains changes.
pub open spec fn global_keys_v(name: Seq<char>) -> Seq<(Seq<char>, Seq<char>)> {
    seq![
        ("q"@, "quit"@),
        ("?"@, "toggle this help"@),
        ("e"@, "explain changes with "@ + name),
        ("esc"@, "close overlay / cancel / back"@),
    ]
}

/// The keys of the overview.
pub open spec fn overview_keys_v() -> Seq<(Seq<char>, Seq<char>)> {
    seq![
        ("j / k"@, "move down / up"@),
        ("ctrl-d / ctrl-u"@, "half-page down / up"@),
        ("gg / G"@, "top / bottom"@),
        ("enter"@, "open file in diff view"@),
        ("v"@, "toggle viewed on selection"@),
        ("space"@, "multi-select file"@),
        ("/"@, "filter file list"@),
        ("s"@, "cycle sort (size/path/status)"@),
        ("c"@, "commits view (placeholder)"@),
    ]
}

/// The keys of the diff view.
pub open spec fn diff_keys_v() -> Seq<(Seq<char>, Seq<char>)> {
    seq![
        ("j / k"@, "line down / up"@),
        ("ctrl-d / ctrl-u"@, "half-page"@),
        ("gg / G"@, "top / bottom"@),
        ("]h / [h"@, "next / prev hunk"@),
        ("]f / [f"@, "next / prev file"@),
        ("]r / [r"@, "next / prev related file"@),
        ("o"@, "back to overview"@),
        ("v"@, "mark viewed, advance"@),
        ("s"@, "toggle side-by-side / unified"@),
        ("w"@, "cycle whitespace handling"@),
        ("z / Z"@, "expand / collapse fold"@),
        ("zR / zM"@, "expand / collapse all folds"@),
        ("/ n N"@, "search, next, prev"@),
    ]
}

/// A key and what it does.
pub open spec fn key_line_v(key: (Seq<char>, Seq<char>), theme: Theme) -> TextV {
    style::line_v(
        seq![
            style::raw_v("  "@),
            style::styled_v(text::pad_right_v(key.0, 16), style::fg_v(theme.added)),
            style::styled_v(key.1, style::fg_v(theme.secondary)),
        ],
    )
}

/// Keys under a title, and a blank line.
pub open spec fn section_v(title: Seq<char>, keys: Seq<(Seq<char>, Seq<char>)>, theme: Theme) -> Seq<
    TextV,
> {
    seq![style::text_line_v(title, style::fg_v(theme.accent).with_bold_v())] + keys.map_values(
        |k: (Seq<char>, Seq<char>)| key_line_v(k, theme),
    ).push(style::blank_v())
}

/// The text of the overlay.
pub open spec fn help_lines_v(name: Seq<char>, theme: Theme) -> Seq<TextV> {
    section_v("Global"@, global_keys_v(name), theme) + section_v("Overview"@, overview_keys_v(), theme)
        + section_v("Diff view"@, diff_keys_v(), theme).push(
        style::text_line_v("press any key to close"@, style::fg_v(theme.tertiary)),
    )
}

/// The size of the overlay: as high as its text and a frame, within the screen.
pub open spec fn help_size_v(lines: nat, area: Rect) -> (int, int) {
    (
        layout::min_v(52, layout::less_v(area.width as int, 2)),
        layout::min_v(lines as int + 2, area.height as int),
    )
}

/// What the overlay shows.
pub open spec fn scene_v(name: Seq<char>, theme: Theme, popup: Rect) -> Seq<OpV> {
    layout::box_v(
        popup,
        " Keybindings "@,
        style::plain_v(),
        style::fg_v(theme.chrome),
        help_lines_v(name, theme),
    )
}

/// Keys under a title, and a blank line.
fn section(title: &str, keys: &Vec<(&str, &str)>, theme: &Theme) -> (r: Vec<Line>)
    ensures
        r.deep_view() == section_v(title@, widgets::hints_view(keys@), *theme),
{
    let ghost ks = widgets::hints_view(keys@);
    let ghost want = section_v(title@, ks, *theme);
    let mut lines = no_lines();
    push_line(&mut lines, Line::text(title, Style::with(theme.accent).bold()));
    let mut i: usize = 0;
    while i < keys.len()
        invariant
            i <= keys@.len(),
            ks == widgets::hints_view(keys@),
            want == section_v(title@, ks, *theme),
            lines.deep_view() =~= want.take(i + 1),
        decreases keys@.len() - i,
    {
        let (key, desc) = keys[i];
        assert(ks[i as int] == (key@, desc@));
        let mut spans = no_spans();
        push_raw(&mut spans, "  ");
        push_styled(&mut spans, pad_right(key, 16).as_str(), Style::with(theme.added));
        push_styled(&mut spans, desc, Style::with(theme.secondary));
        assert(spans.deep_view() =~= key_line_v(ks[i as int], *theme).spans);
        assert(want[i + 1] == key_line_v(ks[i as int], *theme));
        push_line(&mut lines, Line::from_spans(spans));
        i = i + 1;
    }
    push_line(&mut lines, Line::blank());
    assert(lines.deep_view() =~= want);
    lines
}

/// The text of the overlay.
pub fn help_lines(name: &str, theme: &Theme) -> (r: Vec<Line>)
    ensures
        r.deep_view() == help_lines_v(name@, *theme),
{
    let mut explaining = "explain changes with ".to_owned();
    explaining.append(name);
    let global: Vec<(&str, &str)> = vec![
        ("q", "quit"),
        ("?", "toggle this help"),
        ("e", explaining.as_str()),
        ("esc", "close overlay / cancel / back"),
    ];
    let overview: Vec<(&'static str, &'static str)> = vec![
        ("j / k", "move down / up"),
        ("ctrl-d / ctrl-u", "half-page down / up"),
        ("gg / G", "top / bottom"),
        ("enter", "open file in diff view"),
        ("v", "toggle viewed on selection"),
        ("space", "multi-select file"),
        ("/", "filter file list"),
        ("s", "cycle sort (size/path/status)"),
        ("c", "commits view (placeholder)"),
    ];
    let diff: Vec<(&'static str, &'static str)> = vec![
        ("j / k", "line down / up"),
        ("ctrl-d / ctrl-u", "half-page"),
        ("gg / G", "top / bottom"),
        ("]h / [h", "next / prev hunk"),
        ("]f / [f", "next / prev file"),
        ("]r / [r", "next / prev related file"),
        ("o", "back to overview"),
        ("v", "mark viewed, advance"),
        ("s", "toggle side-by-side / unified"),
        ("w", "cycle whitespace handling"),
        ("z / Z", "expand / collapse fold"),
        ("zR / zM", "expand / collapse all folds"),
        ("/ n N", "search, next, prev"),
    ];
    assert(widgets::hints_view(global@) =~= global_keys_v(name@));
    assert(widgets::hints_view(overview@) =~= overview_keys_v());
    assert(widgets::hints_view(diff@) =~= diff_keys_v());
    let mut lines = section("Global", &global, theme);
    let more = section("Overview", &overview, theme);
    push_lines(&mut lines, &more);
    let more = section("Diff view", &diff, theme);
    push_lines(&mut lines, &more);
    push_line(&mut lines, Line::text("press any key to close", theme.dim()));
    assert(lines.deep_view() =~= help_lines_v(name@, *theme));
    lines
}

/// The size of the overlay.
pub fn help_size(lines: usize, area: Rect) -> (r: (u16, u16))
    ensures
        (r.0 as int, r.1 as int) == help_size_v(lines as nat, area),
{
    let wide: u16 = area.width.saturating_sub(2);
    let width: u16 = if wide < 52 {
        wide
    } else {
        52
    };
    let height: u16 = fitting(lines, area.height);
    (width, height)
}

/// The height of some lines and a frame, within a height.
pub fn fitting(lines: usize, height: u16) -> (r: u16)
    ensures
        r == layout::min_v(lines + 2, height as int),
{
    if height >= 2 && lines <= (height - 2) as usize {
        lines as u16 + 2
    } else {
        height
    }
}

/// What the overlay shows.
pub fn scene(name: &str, theme: &Theme, popup: Rect) -> (r: Vec<Op>)
    ensures
        r.deep_view() == scene_v(name@, *theme, popup),
{
    boxed(popup, " Keybindings ", Style::plain(), theme.chrome_style(), help_lines(name, theme))
}

} // verus!
