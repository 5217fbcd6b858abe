//! Styled text: what the screens are made of.
use vstd::prelude::*;
use vstd::string::*;

use crate::width;
use crate::width::str_width;

verus! {

broadcast use vstd::seq_lib::group_seq_properties;

/// A terminal color.
#[derive(Clone, Copy, PartialEq, Eq, Debug, Structural)]
pub enum Color {
    Black,
    Red,
    Green,
    Yellow,
    Blue,
    Magenta,
    Cyan,
    Gray,
    DarkGray,
    Rgb(u8, u8, u8),
    Indexed(u8),
}

/// How text is drawn; where a color is missing, what lies below shows.
#[derive(Clone, Copy, Debug)]
pub struct Style {
    pub fg: Option<Color>,
    pub bg: Option<Color>,
    pub bold: bool,
    pub italic: bool,
}

/// The style that changes nothing.
pub open spec fn plain_v() -> Style {
    Style { fg: None, bg: None, bold: false, italic: false }
}

/// The style with just a foreground color.
pub open spec fn fg_v(c: Color) -> Style {
    Style { fg: Some(c), bg: None, bold: false, italic: false }
}

/// The style with just a background color.
pub open spec fn bg_v(c: Color) -> Style {
    Style { fg: None, bg: Some(c), bold: false, italic: false }
}

/// The style that is just bold.
pub open spec fn bold_v() -> Style {
    Style { fg: None, bg: None, bold: true, italic: false }
}

impl Style {
    /// The style with another foreground.
    pub open spec fn with_fg_v(self, c: Color) -> Style {
        Style { fg: Some(c), ..self }
    }

    /// The style with another background.
    pub open spec fn with_bg_v(self, c: Color) -> Style {
        Style { bg: Some(c), ..self }
    }

    pub open spec fn with_bold_v(self) -> Style {
        Style { bold: true, ..self }
    }

    pub open spec fn with_italic_v(self) -> Style {
        Style { italic: true, ..self }
    }

    /// The style with another laid over it.
    pub open spec fn patched_v(self, over: Style) -> Style {
        Style {
            fg: if over.fg is Some {
                over.fg
            } else {
                self.fg
            },
            bg: if over.bg is Some {
                over.bg
            } else {
                self.bg
            },
            bold: self.bold || over.bold,
            italic: self.italic || over.italic,
        }
    }

    /// The style that changes nothing.
    pub fn plain() -> (r: Style)
        ensures
            r == plain_v(),
    {
        Style { fg: None, bg: None, bold: false, italic: false }
    }

    /// The style with just a foreground color.
    pub fn with(c: Color) -> (r: Style)
        ensures
            r == fg_v(c),
    {
        Style { fg: Some(c), bg: None, bold: false, italic: false }
    }

    pub fn fg(self, c: Color) -> (r: Style)
        ensures
            r == self.with_fg_v(c),
    {
        Style { fg: Some(c), bg: self.bg, bold: self.bold, italic: self.italic }
    }

    pub fn bg(self, c: Color) -> (r: Style)
        ensures
            r == self.with_bg_v(c),
    {
        Style { fg: self.fg, bg: Some(c), bold: self.bold, italic: self.italic }
    }

    pub fn bold(self) -> (r: Style)
        ensures
            r == self.with_bold_v(),
    {
        Style { fg: self.fg, bg: self.bg, bold: true, italic: self.italic }
    }

    pub fn italic(self) -> (r: Style)
        ensures
            r == self.with_italic_v(),
    {
        Style { fg: self.fg, bg: self.bg, bold: self.bold, italic: true }
    }

    /// The style with `over` laid over it.
    pub fn patch(self, over: Style) -> (r: Style)
        ensures
            r == self.patched_v(over),
    {
        Style {
            fg: if over.fg.is_some() {
                over.fg
            } else {
                self.fg
            },
            bg: if over.bg.is_some() {
                over.bg
            } else {
                self.bg
            },
            bold: self.bold || over.bold,
            italic: self.italic || over.italic,
        }
    }

    /// Are the two styles the same?
    pub fn same(self, other: Style) -> (r: bool)
        ensures
            r == (self == other),
    {
        same_color(self.fg, other.fg) && same_color(self.bg, other.bg) && self.bold == other.bold
            && self.italic == other.italic
    }
}

/// Are the two optional colors the same?
fn same_color(a: Option<Color>, b: Option<Color>) -> (r: bool)
    ensures
        r == (a == b),
{
    match (a, b) {
        (Some(x), Some(y)) => x == y,
        (None, None) => true,
        _ => false,
    }
}

/// A run of text in one style.
#[derive(Debug)]
pub struct Span {
    pub content: String,
    pub style: Style,
}

/// The mathematical value of a [`Span`].
#[verifier::ext_equal]
pub ghost struct SpanV {
    pub content: Seq<char>,
    pub style: Style,
}

impl DeepView for Span {
    type V = SpanV;

    open spec fn deep_view(&self) -> SpanV {
        SpanV { content: self.content@, style: self.style }
    }
}

/// A span in the style that changes nothing.
pub open spec fn raw_v(content: Seq<char>) -> SpanV {
    SpanV { content, style: plain_v() }
}

/// A span in a style.
pub open spec fn styled_v(content: Seq<char>, style: Style) -> SpanV {
    SpanV { content, style }
}

impl Span {
    pub fn raw(content: &str) -> (r: Span)
        ensures
            r.deep_view() == raw_v(content@),
    {
        Span { content: content.to_owned(), style: Style::plain() }
    }

    pub fn styled(content: &str, style: Style) -> (r: Span)
        ensures
            r.deep_view() == styled_v(content@, style),
    {
        Span { content: content.to_owned(), style }
    }
}

impl Clone for Span {
    fn clone(&self) -> (r: Self)
        ensures
            r.deep_view() == self.deep_view(),
    {
        Span { content: self.content.clone(), style: self.style }
    }
}

/// Appends a span in the style that changes nothing.
pub fn push_raw(spans: &mut Vec<Span>, content: &str)
    ensures
        final(spans).deep_view() == old(spans).deep_view().push(raw_v(content@)),
{
    spans.push(Span::raw(content));
    assert(spans.deep_view() =~= old(spans).deep_view().push(raw_v(content@)));
}

/// Appends a span in a style.
pub fn push_styled(spans: &mut Vec<Span>, content: &str, style: Style)
    ensures
        final(spans).deep_view() == old(spans).deep_view().push(styled_v(content@, style)),
{
    spans.push(Span::styled(content, style));
    assert(spans.deep_view() =~= old(spans).deep_view().push(styled_v(content@, style)));
}

/// Appends copies of `more`.
pub fn push_spans(spans: &mut Vec<Span>, more: &Vec<Span>)
    ensures
        final(spans).deep_view() == old(spans).deep_view() + more.deep_view(),
{
    let mut i: usize = 0;
    while i < more.len()
        invariant
            i <= more@.len(),
            spans.deep_view() =~= old(spans).deep_view() + more.deep_view().take(i as int),
        decreases more@.len() - i,
    {
        let ghost before = spans.deep_view();
        let s = more[i].clone();
        assert(more.deep_view()[i as int] == more@[i as int].deep_view());
        spans.push(s);
        assert(spans.deep_view() =~= before.push(s.deep_view()));
        i = i + 1;
    }
    assert(more.deep_view().take(more@.len() as int) =~= more.deep_view());
}

/// No spans.
pub fn no_spans() -> (r: Vec<Span>)
    ensures
        r.deep_view() == Seq::<SpanV>::empty(),
{
    let r: Vec<Span> = Vec::new();
    assert(r.deep_view() =~= Seq::<SpanV>::empty());
    r
}

/// One line of a screen: spans, over the line's own style.
#[derive(Debug)]
pub struct Line {
    pub spans: Vec<Span>,
    pub style: Style,
}

/// The mathematical value of a [`Line`].
#[verifier::ext_equal]
pub ghost struct TextV {
    pub spans: Seq<SpanV>,
    pub style: Style,
}

impl DeepView for Line {
    type V = TextV;

    open spec fn deep_view(&self) -> TextV {
        TextV { spans: self.spans.deep_view(), style: self.style }
    }
}

/// A line of spans.
pub open spec fn line_v(spans: Seq<SpanV>) -> TextV {
    TextV { spans, style: plain_v() }
}

/// A line without text.
pub open spec fn blank_v() -> TextV {
    line_v(Seq::empty())
}

/// A line of one span.
pub open spec fn text_line_v(content: Seq<char>, style: Style) -> TextV {
    line_v(seq![styled_v(content, style)])
}

impl Line {
    pub fn from_spans(spans: Vec<Span>) -> (r: Line)
        ensures
            r.deep_view() == line_v(spans.deep_view()),
    {
        Line { spans, style: Style::plain() }
    }

    /// A line without text.
    pub fn blank() -> (r: Line)
        ensures
            r.deep_view() == blank_v(),
    {
        Line::from_spans(no_spans())
    }

    /// A line of one span.
    pub fn text(content: &str, style: Style) -> (r: Line)
        ensures
            r.deep_view() == text_line_v(content@, style),
    {
        let mut spans = no_spans();
        push_styled(&mut spans, content, style);
        Line::from_spans(spans)
    }
}

impl Clone for Line {
    fn clone(&self) -> (r: Self)
        ensures
            r.deep_view() == self.deep_view(),
    {
        let mut spans = no_spans();
        push_spans(&mut spans, &self.spans);
        Line { spans, style: self.style }
    }
}

/// Appends a line.
pub fn push_line(lines: &mut Vec<Line>, line: Line)
    ensures
        final(lines).deep_view() == old(lines).deep_view().push(line.deep_view()),
{
    lines.push(line);
    assert(lines.deep_view() =~= old(lines).deep_view().push(line.deep_view()));
}

/// No lines.
pub fn no_lines() -> (r: Vec<Line>)
    ensures
        r.deep_view() == Seq::<TextV>::empty(),
{
    let r: Vec<Line> = Vec::new();
    assert(r.deep_view() =~= Seq::<TextV>::empty());
    r
}

/// The columns that spans take.
pub open spec fn spans_width_v(spans: Seq<SpanV>) -> int
    decreases spans.len(),
{
    if spans.len() == 0 {
        0
    } else {
        spans_width_v(spans.drop_last()) + width::str_width_v(spans.last().content)
    }
}

/// The columns that spans take, or a larger number than any where that does not fit in a word.
pub fn spans_width(spans: &Vec<Span>) -> (r: usize)
    ensures
        r == spans_width_v(spans.deep_view()) || (r == usize::MAX && spans_width_v(
            spans.deep_view(),
        ) > usize::MAX),
{
    let ghost all = spans.deep_view();
    let mut sum: usize = 0;
    let mut i: usize = 0;
    while i < spans.len()
        invariant
            i <= spans@.len(),
            all == spans.deep_view(),
            sum == spans_width_v(all.take(i as int)) || (sum == usize::MAX && spans_width_v(
                all.take(i as int),
            ) > usize::MAX),
        decreases spans@.len() - i,
    {
        assert(all.take(i + 1).drop_last() =~= all.take(i as int));
        assert(all[i as int] == spans@[i as int].deep_view());
        sum = sum.saturating_add(str_width(spans[i].content.as_str()));
        i = i + 1;
    }
    assert(all.take(all.len() as int) =~= all);
    sum
}

/// How far spans fall short of a width.
pub open spec fn gap_v(width: int, used: int) -> nat {
    if used >= width {
        0
    } else {
        (width - used) as nat
    }
}

} // verus!
