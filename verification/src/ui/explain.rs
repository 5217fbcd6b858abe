//! The overlay of explanations: the prompt for guidance, the answer while it arrives, the answer.
use vstd::prelude::*;
use vstd::string::*;

use crate::style;
use crate::text;
use crate::ui::commit;
use crate::ui::layout;
use crate::ui::markdown;
use crate::app::{App, AppV};
use crate::explain::{Answer, AnswerV, Explain, ExplainV, Guidance, GuidanceV, Running, RunningV};
use crate::style::{
    Color, Line, SpanV, Style, TextV, no_lines, no_spans, push_line, push_styled, spans_width,
};
use crate::text::decimal;
use crate::theme::Theme;
use crate::ui::commit::field;
use crate::ui::layout::{Op, OpV, Rect, boxed, no_ops, push_op};
use crate::ui::markdown::render;
use crate::ui::widgets;
use crate::ui::widgets::{one_line};

verus! {

broadcast use vstd::seq_lib::group_seq_properties;

// ---- Prompts ----

/// The height of the prompt for guidance.
pub const PROMPT_HEIGHT: u16 = 7;

/// The height of the prompt for a file name.
pub const SAVE_HEIGHT: u16 = 6;

/// What is explained, and by which model where one is set.
pub open spec fn prompt_head_v(g: GuidanceV, theme: Theme) -> Seq<SpanV> {
    let head = seq![
        style::styled_v("Explain "@, style::fg_v(theme.secondary)),
        style::styled_v(g.target, style::bold_v()),
    ];
    match g.model {
        Some(m) => head.push(
            style::styled_v("   ("@ + m.alias_v() + ")"@, style::fg_v(theme.tertiary)),
        ),
        None => head,
    }
}

/// What the prompt for guidance shows.
pub open spec fn prompting_v(g: GuidanceV, name: Seq<char>, theme: Theme, popup: Rect) -> Seq<OpV> {
    let dim = style::fg_v(theme.tertiary);
    let lines = seq![
        style::line_v(prompt_head_v(g, theme)),
        style::text_line_v("Add guidance (optional), e.g. \"focus on edge cases\":"@, dim),
        commit::field_v(g.input, popup, theme),
        style::blank_v(),
        style::text_line_v("enter to ask · esc to cancel"@, dim),
    ];
    layout::box_v(
        popup,
        " Explain with "@ + name + " "@,
        style::fg_v(theme.accent).with_bold_v(),
        style::fg_v(theme.chrome),
        lines,
    )
}

/// What the prompt for a file name shows.
pub open spec fn save_prompt_v(name: Seq<char>, theme: Theme, popup: Rect) -> Seq<OpV> {
    layout::box_v(
        popup,
        " Save explanation "@,
        style::fg_v(theme.accent).with_bold_v(),
        style::fg_v(theme.chrome),
        seq![
            style::text_line_v("Save the explanation to a Markdown file:"@, style::fg_v(theme.secondary)),
            commit::field_v(name, popup, theme),
            style::blank_v(),
            style::text_line_v("enter to save · esc to cancel"@, style::fg_v(theme.tertiary)),
        ],
    )
}

/// What the prompt for guidance shows.
fn prompting(g: &Guidance, name: &str, theme: &Theme, popup: Rect) -> (r: Vec<Op>)
    ensures
        r.deep_view() == prompting_v(g.deep_view(), name@, *theme, popup),
{
    let mut head = no_spans();
    push_styled(&mut head, "Explain ", Style::with(theme.secondary));
    push_styled(&mut head, g.target.as_str(), Style::plain().bold());
    assert(head.deep_view() =~= seq![
        style::styled_v("Explain "@, style::fg_v(theme.secondary)),
        style::styled_v(g.target@, style::bold_v()),
    ]);
    if let Some(m) = g.model {
        let mut s = "   (".to_owned();
        s.append(m.alias());
        s.append(")");
        push_styled(&mut head, s.as_str(), theme.dim());
    }
    assert(head.deep_view() =~= prompt_head_v(g.deep_view(), *theme));
    let mut lines = no_lines();
    push_line(&mut lines, Line::from_spans(head));
    push_line(
        &mut lines,
        Line::text("Add guidance (optional), e.g. \"focus on edge cases\":", theme.dim()),
    );
    push_line(&mut lines, field(g.input.as_str(), popup, theme));
    push_line(&mut lines, Line::blank());
    push_line(&mut lines, Line::text("enter to ask · esc to cancel", theme.dim()));
    assert(lines.deep_view() =~= seq![
        style::line_v(prompt_head_v(g.deep_view(), *theme)),
        style::text_line_v(
            "Add guidance (optional), e.g. \"focus on edge cases\":"@,
            style::fg_v(theme.tertiary),
        ),
        commit::field_v(g.input@, popup, *theme),
        style::blank_v(),
        style::text_line_v("enter to ask · esc to cancel"@, style::fg_v(theme.tertiary)),
    ]);
    let mut title = " Explain with ".to_owned();
    title.append(name);
    title.append(" ");
    boxed(popup, title.as_str(), Style::with(theme.accent).bold(), theme.chrome_style(), lines)
}

/// What the prompt for a file name shows.
fn save_prompt(name: &str, theme: &Theme, popup: Rect) -> (r: Vec<Op>)
    ensures
        r.deep_view() == save_prompt_v(name@, *theme, popup),
{
    let mut lines = no_lines();
    push_line(
        &mut lines,
        Line::text("Save the explanation to a Markdown file:", Style::with(theme.secondary)),
    );
    push_line(&mut lines, field(name, popup, theme));
    push_line(&mut lines, Line::blank());
    push_line(&mut lines, Line::text("enter to save · esc to cancel", theme.dim()));
    assert(lines.deep_view() =~= seq![
        style::text_line_v("Save the explanation to a Markdown file:"@, style::fg_v(theme.secondary)),
        commit::field_v(name@, popup, *theme),
        style::blank_v(),
        style::text_line_v("enter to save · esc to cancel"@, style::fg_v(theme.tertiary)),
    ]);
    boxed(
        popup,
        " Save explanation ",
        Style::with(theme.accent).bold(),
        theme.chrome_style(),
        lines,
    )
}

// ---- Answers ----

/// The areas of an answer.
#[derive(Clone, Copy)]
pub struct PanelAreas {
    pub popup: Rect,
    pub body: Rect,
    pub footer: Rect,
}

/// The size of an answer: four fifths of the height.
pub open spec fn panel_size_v(area: Rect) -> (int, int) {
    let height = area.height * 4 / 5;
    (
        layout::min_v(84, layout::less_v(area.width as int, 4)),
        if height > 6 {
            height
        } else {
            6
        },
    )
}

/// The rows that the text of an answer gets.
pub open spec fn body_height_v(popup: Rect) -> int {
    layout::less_v(popup.height as int, 3)
}

/// The columns that the text of an answer gets.
pub open spec fn inner_width_v(popup: Rect) -> int {
    let w = layout::less_v(popup.width as int, 2);
    if w > 1 {
        w
    } else {
        1
    }
}

/// The rows that a line takes where it is wrapped. (No line is wider than the largest number.)
pub open spec fn line_rows_v(line: TextV, width: int) -> int {
    let w = layout::min_v(style::spans_width_v(line.spans), usize::MAX as int);
    if w == 0 {
        1
    } else {
        (w + width - 1) / width
    }
}

/// The rows that lines take where they are wrapped.
pub open spec fn wrapped_rows_v(lines: Seq<TextV>, width: int) -> int
    decreases lines.len(),
{
    if lines.len() == 0 {
        0
    } else {
        wrapped_rows_v(lines.drop_last(), width) + line_rows_v(lines.last(), width)
    }
}

/// The rows that lines take where they are wrapped, or the largest number.
pub open spec fn wrapped_count_v(lines: Seq<TextV>, width: int) -> int {
    layout::min_v(wrapped_rows_v(lines, width), usize::MAX as int)
}

/// The last row that can be at the top.
pub open spec fn max_scroll_v(lines: Seq<TextV>, popup: Rect) -> int {
    layout::less_v(wrapped_count_v(lines, inner_width_v(popup)), body_height_v(popup))
}

/// What an answer shows: a frame, the text from a row on, and a line below it.
pub open spec fn panel_v(
    a: PanelAreas,
    title: Seq<char>,
    color: Color,
    lines: Seq<TextV>,
    footer: Seq<char>,
    scroll: int,
    theme: Theme,
) -> Seq<OpV> {
    seq![
        OpV::Frame {
            area: a.popup,
            title,
            title_style: style::fg_v(color).with_bold_v(),
            border_style: style::fg_v(theme.chrome),
        },
        OpV::Wrapped {
            area: a.body,
            lines,
            scroll: layout::min_v(scroll, max_scroll_v(lines, a.popup)) as u16,
        },
        layout::text_op_v(a.footer, seq![style::text_line_v(footer, style::fg_v(theme.tertiary))]),
    ]
}

/// The size of an answer.
pub fn panel_size(area: Rect) -> (r: (u16, u16))
    ensures
        (r.0 as int, r.1 as int) == panel_size_v(area),
{
    let wide: u16 = area.width.saturating_sub(4);
    let width: u16 = if wide < 84 {
        wide
    } else {
        84
    };
    let part: u32 = area.height as u32 * 4 / 5;
    let height: u16 = if part > 6 {
        part as u16
    } else {
        6
    };
    (width, height)
}

proof fn lemma_rows_nonneg(lines: Seq<TextV>, width: int)
    requires
        width > 0,
    ensures
        wrapped_rows_v(lines, width) >= 0,
    decreases lines.len(),
{
    if lines.len() > 0 {
        lemma_rows_nonneg(lines.drop_last(), width);
        lemma_line_rows(lines.last(), width);
    }
}

proof fn lemma_line_rows(line: TextV, width: int)
    requires
        width > 0,
    ensures
        line_rows_v(line, width) >= 1,
{
    widgets::lemma_width_nonneg(line.spans);
    let w = layout::min_v(style::spans_width_v(line.spans), usize::MAX as int);
    if w > 0 {
        assert((w + width - 1) / width >= 1) by (nonlinear_arith)
            requires
                w > 0,
                width > 0,
        ;
    }
}

/// The rows that lines take where they are wrapped, or the largest number.
pub fn wrapped_count(lines: &Vec<Line>, width: usize) -> (r: usize)
    requires
        0 < width <= 0xffff,
    ensures
        r == wrapped_count_v(lines.deep_view(), width as int),
{
    let ghost all = lines.deep_view();
    let mut sum: usize = 0;
    let mut i: usize = 0;
    assert(all.take(0) =~= Seq::empty());
    while i < lines.len()
        invariant
            i <= lines@.len(),
            0 < width <= 0xffff,
            all == lines.deep_view(),
            sum == wrapped_count_v(all.take(i as int), width as int),
        decreases lines@.len() - i,
    {
        assert(all[i as int] == lines@[i as int].deep_view());
        assert(all.take(i + 1).drop_last() =~= all.take(i as int));
        let rows: usize = line_rows(&lines[i], width);
        proof {
            lemma_rows_nonneg(all.take(i as int), width as int);
            lemma_line_rows(all[i as int], width as int);
        }
        sum = sum.saturating_add(rows);
        i = i + 1;
    }
    assert(all.take(all.len() as int) =~= all);
    sum
}

/// The rows that a line takes where it is wrapped.
fn line_rows(line: &Line, width: usize) -> (r: usize)
    requires
        0 < width <= 0xffff,
    ensures
        r == line_rows_v(line.deep_view(), width as int),
{
    proof {
        widgets::lemma_width_nonneg(line.spans.deep_view());
    }
    let w: usize = spans_width(&line.spans);
    if w == 0 {
        return 1;
    }
    let up: u128 = w as u128 + width as u128 - 1;
    proof {
        assert(up / (width as u128) <= w) by (nonlinear_arith)
            requires
                up == w + width - 1,
                w > 0,
                width > 0,
        ;
    }
    (up / (width as u128)) as usize
}

/// The last row that can be at the top.
fn max_scroll(lines: &Vec<Line>, popup: Rect) -> (r: usize)
    ensures
        r == max_scroll_v(lines.deep_view(), popup),
{
    let wide: usize = popup.width.saturating_sub(2) as usize;
    let width: usize = if wide > 1 {
        wide
    } else {
        1
    };
    let height: usize = popup.height.saturating_sub(3) as usize;
    wrapped_count(lines, width).saturating_sub(height)
}

/// What an answer shows; at the end of the text where no row is given.
fn panel(
    a: PanelAreas,
    title: &str,
    color: Color,
    lines: Vec<Line>,
    footer: &str,
    scroll: Option<usize>,
    theme: &Theme,
) -> (r: Vec<Op>)
    ensures
        r.deep_view() == panel_v(
            a,
            title@,
            color,
            lines.deep_view(),
            footer@,
            match scroll {
                Some(s) => s as int,
                None => max_scroll_v(lines.deep_view(), a.popup),
            },
            *theme,
        ),
{
    let max: usize = max_scroll(&lines, a.popup);
    let top: usize = match scroll {
        Some(s) => {
            if s < max {
                s
            } else {
                max
            }
        },
        None => max,
    };
    let ghost lv = lines.deep_view();
    let mut ops = no_ops();
    push_op(
        &mut ops,
        Op::Frame {
            area: a.popup,
            title: title.to_owned(),
            title_style: Style::with(color).bold(),
            border_style: theme.chrome_style(),
        },
    );
    push_op(&mut ops, Op::Wrapped { area: a.body, lines, scroll: #[verifier::truncate] (top as u16) });
    let last = one_line(Line::text(footer, theme.dim()));
    push_op(&mut ops, Op::Text { area: a.footer, lines: last, centered: false });
    assert(ops.deep_view() =~= panel_v(
        a,
        title@,
        color,
        lv,
        footer@,
        match scroll {
            Some(s) => s as int,
            None => max_scroll_v(lv, a.popup),
        },
        *theme,
    ));
    ops
}

// ---- The overlay ----

/// The signs that turn while an answer is awaited.
pub open spec fn spinner_v(at: int) -> Seq<char> {
    if at == 0 {
        "⠋"@
    } else if at == 1 {
        "⠙"@
    } else if at == 2 {
        "⠹"@
    } else if at == 3 {
        "⠸"@
    } else if at == 4 {
        "⠼"@
    } else if at == 5 {
        "⠴"@
    } else if at == 6 {
        "⠦"@
    } else if at == 7 {
        "⠧"@
    } else if at == 8 {
        "⠇"@
    } else {
        "⠏"@
    }
}

/// The title while an answer is awaited: a turning sign, what is explained, and for how long.
pub open spec fn running_title_v(r: RunningV, elapsed: int) -> Seq<char> {
    " "@ + spinner_v((elapsed / 90) % 10) + " Explaining "@ + r.target + " · "@ + (match r.model {
        Some(m) => m.alias_v() + " · "@,
        None => Seq::empty(),
    }) + text::decimal_v((elapsed / 1000) as nat) + "s "@
}

/// The text while an answer is awaited: what has arrived of it.
pub open spec fn running_lines_v(r: RunningV, name: Seq<char>, theme: Theme) -> Seq<TextV> {
    if r.partial.len() == 0 {
        seq![
            style::text_line_v("Waiting for "@ + name + "…"@, style::fg_v(theme.tertiary)),
        ]
    } else {
        markdown::render_v(r.partial, theme)
    }
}

/// What the overlay shows while an answer is awaited: the end of what has arrived.
pub open spec fn running_v(
    r: RunningV,
    name: Seq<char>,
    elapsed: int,
    theme: Theme,
    a: PanelAreas,
) -> Seq<OpV> {
    let lines = running_lines_v(r, name, theme);
    panel_v(
        a,
        running_title_v(r, elapsed),
        theme.accent,
        lines,
        "esc to cancel"@,
        max_scroll_v(lines, a.popup),
        theme,
    )
}

impl AnswerV {
    /// Scrolled within the text.
    pub open spec fn kept_in_view(self, theme: Theme, popup: Rect) -> AnswerV {
        AnswerV {
            scroll: layout::min_v(
                self.scroll,
                max_scroll_v(markdown::render_v(self.text, theme), popup),
            ),
            ..self
        }
    }
}

/// What the overlay shows of an answer.
pub open spec fn answer_v(ans: AnswerV, theme: Theme, a: PanelAreas) -> Seq<OpV> {
    panel_v(
        a,
        if ans.is_error {
            " Explain — error "@
        } else {
            " Explanation "@
        },
        if ans.is_error {
            theme.removed
        } else {
            theme.accent
        },
        markdown::render_v(ans.text, theme),
        match ans.notice {
            Some(n) => n,
            None => "j/k scroll · s save · esc/q close"@,
        },
        ans.scroll,
        theme,
    )
}

/// The turning sign.
fn spinner(at: u64) -> (r: &'static str)
    requires
        at < 10,
    ensures
        r@ == spinner_v(at as int),
{
    match at {
        0 => "⠋",
        1 => "⠙",
        2 => "⠹",
        3 => "⠸",
        4 => "⠼",
        5 => "⠴",
        6 => "⠦",
        7 => "⠧",
        8 => "⠇",
        _ => "⠏",
    }
}

/// What the overlay shows while an answer is awaited; `elapsed` is in milliseconds.
fn running(r: &Running, name: &str, elapsed: u64, theme: &Theme, a: PanelAreas) -> (ops: Vec<Op>)
    ensures
        ops.deep_view() == running_v(r.deep_view(), name@, elapsed as int, *theme, a),
{
    let mut title = " ".to_owned();
    title.append(spinner((elapsed / 90) % 10));
    title.append(" Explaining ");
    title.append(r.target.as_str());
    title.append(" · ");
    if let Some(m) = r.model {
        title.append(m.alias());
        title.append(" · ");
    }
    title.append(decimal(elapsed / 1000).as_str());
    title.append("s ");
    assert(title@ =~= running_title_v(r.deep_view(), elapsed as int));
    let lines: Vec<Line> = if r.partial.as_str().is_empty() {
        let mut s = "Waiting for ".to_owned();
        s.append(name);
        s.append("…");
        one_line(Line::text(s.as_str(), theme.dim()))
    } else {
        render(r.partial.as_str(), theme)
    };
    panel(a, title.as_str(), theme.accent, lines, "esc to cancel", None, theme)
}

/// What the overlay shows of an answer. The answer is scrolled within its text.
fn answer(ans: &mut Answer, theme: &Theme, a: PanelAreas) -> (ops: Vec<Op>)
    ensures
        final(ans).deep_view() == old(ans).deep_view().kept_in_view(*theme, a.popup),
        ops.deep_view() == answer_v(final(ans).deep_view(), *theme, a),
{
    let lines = render(ans.text.as_str(), theme);
    let max: usize = max_scroll(&lines, a.popup);
    if ans.scroll > max {
        ans.scroll = max;
    }
    let (title, color): (&'static str, Color) = if ans.is_error {
        (" Explain — error ", theme.removed)
    } else {
        (" Explanation ", theme.accent)
    };
    let footer: &str = match &ans.notice {
        Some(n) => n.as_str(),
        None => "j/k scroll · s save · esc/q close",
    };
    panel(a, title, color, lines, footer, Some(ans.scroll), theme)
}

/// What the overlay shows, and the state that is left.
pub open spec fn scene_v(app: AppV, elapsed: int, popup: Rect, a: PanelAreas) -> (AppV, Seq<OpV>) {
    let theme = app.theme;
    match app.explain {
        ExplainV::Idle => (app, Seq::empty()),
        ExplainV::Prompting(g) => (app, prompting_v(g, app.assistant.name, theme, popup)),
        ExplainV::Running(r) => (app, running_v(r, app.assistant.name, elapsed, theme, a)),
        ExplainV::Result(ans) => match ans.save {
            Some(name) => (app, save_prompt_v(name, theme, popup)),
            None => {
                let kept = ans.kept_in_view(theme, a.popup);
                (AppV { explain: ExplainV::Result(kept), ..app }, answer_v(kept, theme, a))
            },
        },
    }
}

/// What the overlay shows: a prompt in `popup`, or an answer. An answer is scrolled within its
/// text. `elapsed` is for how long it is awaited, in milliseconds.
pub fn scene(app: &mut App, elapsed: u64, popup: Rect, a: PanelAreas) -> (r: Vec<Op>)
    requires
        old(app).wf(),
    ensures
        final(app).wf(),
        (final(app)@, r.deep_view()) == scene_v(old(app)@, elapsed as int, popup, a),
{
    let theme: Theme = app.theme;
    match &mut app.explain {
        Explain::Idle => no_ops(),
        Explain::Prompting(g) => prompting(g, app.assistant.name.as_str(), &theme, popup),
        Explain::Running(r) => running(r, app.assistant.name.as_str(), elapsed, &theme, a),
        Explain::Result(ans) => {
            if let Some(name) = &ans.save {
                return save_prompt(name.as_str(), &theme, popup);
            }
            answer(ans, &theme, a)
        },
    }
}

} // verus!
