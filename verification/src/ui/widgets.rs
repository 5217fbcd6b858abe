//! Parts that the screens share: rules, bars of text, padding.
use vstd::prelude::*;
use vstd::string::*;

use crate::style;
use crate::text;
use crate::style::{
    Line, Span, SpanV, Style, TextV, no_lines, no_spans, push_line, push_raw, push_spans,
    push_styled, spans_width,
};
use crate::text::{decimal_usize, repeat};
use crate::theme::Theme;

verus! {

/// A horizontal rule.
pub open spec fn rule_v(width: int, theme: Theme) -> TextV {
    style::text_line_v(text::repeat_v('─', width as nat), style::fg_v(theme.chrome))
}

/// A horizontal rule.
pub fn rule(width: u16, theme: &Theme) -> (r: Line)
    ensures
        r.deep_view() == rule_v(width as int, *theme),
{
    Line::text(repeat('─', width as usize).as_str(), theme.chrome_style())
}

/// A line with one part on the left and one on the far right.
pub open spec fn justified_v(left: Seq<SpanV>, right: Seq<SpanV>, width: int) -> TextV {
    let gap = style::gap_v(width, style::spans_width_v(left) + style::spans_width_v(right));
    style::line_v(left.push(style::raw_v(text::repeat_v(' ', gap))) + right)
}

/// Spans take no negative width.
pub proof fn lemma_width_nonneg(spans: Seq<SpanV>)
    ensures
        style::spans_width_v(spans) >= 0,
    decreases spans.len(),
{
    if spans.len() > 0 {
        lemma_width_nonneg(spans.drop_last());
    }
}

/// A line with one part on the left and one on the far right.
pub fn justified(left: Vec<Span>, right: Vec<Span>, width: u16) -> (r: Line)
    ensures
        r.deep_view() == justified_v(left.deep_view(), right.deep_view(), width as int),
{
    proof {
        lemma_width_nonneg(left.deep_view());
        lemma_width_nonneg(right.deep_view());
    }
    let used: usize = spans_width(&left).saturating_add(spans_width(&right));
    let gap: usize = (width as usize).saturating_sub(used);
    let mut spans = left;
    push_raw(&mut spans, repeat(' ', gap).as_str());
    push_spans(&mut spans, &right);
    Line::from_spans(spans)
}

/// Spans filled up to a width.
pub open spec fn pad_to_v(spans: Seq<SpanV>, width: int) -> Seq<SpanV> {
    let pad = style::gap_v(width, style::spans_width_v(spans));
    if pad > 0 {
        spans.push(style::raw_v(text::repeat_v(' ', pad)))
    } else {
        spans
    }
}

/// Fills spans up to a width, so that the background of a row covers all of it.
pub fn pad_to(spans: Vec<Span>, width: u16) -> (r: Vec<Span>)
    ensures
        r.deep_view() == pad_to_v(spans.deep_view(), width as int),
{
    proof {
        lemma_width_nonneg(spans.deep_view());
    }
    let used: usize = spans_width(&spans);
    let pad: usize = (width as usize).saturating_sub(used);
    let mut spans = spans;
    if pad > 0 {
        push_raw(&mut spans, repeat(' ', pad).as_str());
    }
    spans
}

/// Pairs of a key and what it does.
pub open spec fn hints_view(hints: Seq<(&str, &str)>) -> Seq<(Seq<char>, Seq<char>)> {
    hints.map_values(|h: (&str, &str)| (h.0@, h.1@))
}

/// The spans of the first `k` hints.
pub open spec fn hint_spans_v(hints: Seq<(Seq<char>, Seq<char>)>, theme: Theme, k: nat) -> Seq<SpanV>
    decreases k,
{
    if k == 0 {
        seq![style::raw_v(" "@)]
    } else {
        let before = hint_spans_v(hints, theme, (k - 1) as nat);
        let dim = style::fg_v(theme.tertiary);
        (if k > 1 {
            before.push(style::styled_v("   "@, dim))
        } else {
            before
        }).push(style::styled_v(hints[k - 1].0, style::fg_v(theme.accent))).push(style::raw_v(" "@)).push(
            style::styled_v(hints[k - 1].1, dim),
        )
    }
}

/// The last line of a screen: a message, or hints.
pub open spec fn footer_v(
    hints: Seq<(Seq<char>, Seq<char>)>,
    flash: Option<Seq<char>>,
    theme: Theme,
) -> TextV {
    match flash {
        Some(msg) => style::text_line_v(" "@ + msg, style::fg_v(theme.accent)),
        None => style::line_v(hint_spans_v(hints, theme, hints.len())),
    }
}

/// The last line of a screen: a message, or hints.
pub fn footer(hints: &Vec<(&'static str, &'static str)>, flash: &Option<String>, theme: &Theme) -> (r:
    Line)
    ensures
        r.deep_view() == footer_v(hints_view(hints@), flash.deep_view(), *theme),
{
    if let Some(msg) = flash {
        let mut s = " ".to_owned();
        s.append(msg.as_str());
        return Line::text(s.as_str(), Style::with(theme.accent));
    }
    let ghost hs = hints_view(hints@);
    let mut spans = no_spans();
    push_raw(&mut spans, " ");
    assert(spans.deep_view() =~= seq![style::raw_v(" "@)]);
    let mut i: usize = 0;
    while i < hints.len()
        invariant
            i <= hints@.len(),
            hs == hints_view(hints@),
            spans.deep_view() == hint_spans_v(hs, *theme, i as nat),
        decreases hints@.len() - i,
    {
        assert(hs[i as int] == (hints@[i as int].0@, hints@[i as int].1@));
        if i > 0 {
            push_styled(&mut spans, "   ", theme.dim());
        }
        push_styled(&mut spans, hints[i].0, Style::with(theme.accent));
        push_raw(&mut spans, " ");
        push_styled(&mut spans, hints[i].1, theme.dim());
        i = i + 1;
    }
    Line::from_spans(spans)
}

/// One line as a list.
pub fn one_line(line: Line) -> (r: Vec<Line>)
    ensures
        r.deep_view() == seq![line.deep_view()],
{
    let mut lines = no_lines();
    push_line(&mut lines, line);
    assert(lines.deep_view() =~= seq![line.deep_view()]);
    lines
}

/// Appends lines.
pub fn push_lines(out: &mut Vec<Line>, more: &Vec<Line>)
    ensures
        final(out).deep_view() == old(out).deep_view() + more.deep_view(),
{
    let mut i: usize = 0;
    while i < more.len()
        invariant
            i <= more@.len(),
            out.deep_view() =~= old(out).deep_view() + more.deep_view().take(i as int),
        decreases more@.len() - i,
    {
        assert(more.deep_view()[i as int] == more@[i as int].deep_view());
        push_line(out, more[i].clone());
        i = i + 1;
    }
    assert(more.deep_view().take(more@.len() as int) =~= more.deep_view());
}

/// The dot that shows whether a file is viewed.
pub open spec fn dot_v(viewed: bool, theme: Theme) -> SpanV {
    if viewed {
        style::styled_v("●"@, style::fg_v(theme.tertiary))
    } else {
        style::styled_v("○"@, style::fg_v(theme.added))
    }
}

/// Appends the dot that shows whether a file is viewed.
pub fn push_dot(spans: &mut Vec<Span>, viewed: bool, theme: &Theme)
    ensures
        final(spans).deep_view() == old(spans).deep_view().push(dot_v(viewed, *theme)),
{
    if viewed {
        push_styled(spans, "●", theme.dim());
    } else {
        push_styled(spans, "○", Style::with(theme.added));
    }
}

/// A sign and a number.
pub fn signed_count(sign: &str, n: usize) -> (r: String)
    ensures
        r@ == sign@ + text::decimal_v(n as nat),
{
    let mut s = sign.to_owned();
    s.append(decimal_usize(n).as_str());
    s
}

/// A padded line is as wide as asked for, or as wide as it was, where spaces are one column wide
/// each.
pub proof fn law_padding_fills(spans: Seq<SpanV>, width: int)
    ensures
        ({
            let used = style::spans_width_v(spans);
            let pad = style::gap_v(width, used);
            crate::width::str_width_v(text::repeat_v(' ', pad)) == pad ==> style::spans_width_v(
                pad_to_v(spans, width),
            ) == (if used > width {
                used
            } else {
                width
            })
        }),
{
    let pad = style::gap_v(width, style::spans_width_v(spans));
    if pad > 0 {
        let span = style::raw_v(text::repeat_v(' ', pad));
        assert(spans.push(span).drop_last() =~= spans);
    }
}

} // verus!
