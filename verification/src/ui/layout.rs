//! Areas of the screen and how they are divided.
use ratatui::layout::{Constraint, Flex, Layout};
use vstd::prelude::*;

use crate::style::{Line, Style, TextV};

verus! {

/// An area of the screen, in cells.
#[derive(Clone, Copy, PartialEq, Eq, Debug, Structural)]
pub struct Rect {
    pub x: u16,
    pub y: u16,
    pub width: u16,
    pub height: u16,
}

/// How large a part of an area is to be.
#[derive(Clone, Copy, PartialEq, Eq, Debug, Structural)]
pub enum Size {
    Length(u16),
    Min(u16),
}

/// In what way an area is divided.
#[derive(Clone, Copy, PartialEq, Eq, Debug, Structural)]
pub enum Division {
    /// From the top down.
    Rows,
    /// Rows, in the middle of the area.
    CenteredRows,
    /// Columns, in the middle of the area.
    CenteredColumns,
}

/// Do the corners of an area have coordinates?
pub open spec fn on_grid(area: Rect) -> bool {
    area.x + area.width <= 0xffff && area.y + area.height <= 0xffff
}

/// Does a part lie in an area?
pub open spec fn within(part: Rect, area: Rect) -> bool {
    &&& area.x <= part.x
    &&& area.y <= part.y
    &&& part.x + part.width <= area.x + area.width
    &&& part.y + part.height <= area.y + area.height
}

/// Do all parts lie in an area?
pub open spec fn all_within(parts: Seq<Rect>, area: Rect) -> bool {
    forall|i: int| 0 <= i < parts.len() ==> within(#[trigger] parts[i], area)
}

/// Are all parts as wide as an area?
pub open spec fn all_as_wide(parts: Seq<Rect>, area: Rect) -> bool {
    forall|i: int|
        0 <= i < parts.len() ==> (#[trigger] parts[i]).x == area.x && parts[i].width == area.width
}

/// Are all parts as high as an area?
pub open spec fn all_as_high(parts: Seq<Rect>, area: Rect) -> bool {
    forall|i: int|
        0 <= i < parts.len() ==> (#[trigger] parts[i]).y == area.y && parts[i].height
            == area.height
}

impl Size {
    /// How much a part is to get at least.
    pub open spec fn least(self) -> int {
        match self {
            Size::Length(n) => n as int,
            Size::Min(n) => n as int,
        }
    }

    /// Is a part of this size?
    pub open spec fn met(self, extent: int) -> bool {
        match self {
            Size::Length(n) => extent == n,
            Size::Min(n) => extent >= n,
        }
    }
}

/// How much the first `k` parts are to get at least.
pub open spec fn least_v(sizes: Seq<Size>, k: int) -> int
    decreases k,
{
    if k <= 0 {
        0
    } else {
        least_v(sizes, k - 1) + sizes[k - 1].least()
    }
}

/// How many of the first `k` parts may grow.
pub open spec fn growing_v(sizes: Seq<Size>, k: int) -> int
    decreases k,
{
    if k <= 0 {
        0
    } else {
        growing_v(sizes, k - 1) + if sizes[k - 1] is Min {
            1int
        } else {
            0
        }
    }
}

/// Is there room for all sizes, of which one may grow at most? Least sizes are read as signed
/// numbers of sixteen bits.
pub open spec fn has_room(sizes: Seq<Size>, extent: int) -> bool {
    &&& least_v(sizes, sizes.len() as int) <= extent
    &&& growing_v(sizes, sizes.len() as int) <= 1
    &&& forall|i: int|
        0 <= i < sizes.len() ==> ((#[trigger] sizes[i]) is Min ==> sizes[i].least() <= 0x7fff)
}

/// Do the parts have their sizes, and follow one another from the top of the area on? Where one may
/// grow, they fill the area.
pub open spec fn stacked(parts: Seq<Rect>, area: Rect, sizes: Seq<Size>) -> bool {
    &&& forall|i: int| 0 <= i < parts.len() ==> sizes[i].met((#[trigger] parts[i]).height as int)
    &&& parts.len() > 0 ==> parts[0].y == area.y
    &&& forall|i: int, j: int|
        0 <= i < parts.len() - 1 && j == i + 1 ==> (#[trigger] parts[j]).y == (#[trigger] parts[i]).y
            + parts[i].height
    &&& growing_v(sizes, sizes.len() as int) == 1 ==> parts.last().y + parts.last().height == area.y
        + area.height
}

/// Does a stretch lie in the middle of another, to within one cell, as long as was asked and not
/// longer than the other?
pub open spec fn in_middle(at: int, len: int, from: int, extent: int, asked: int) -> bool {
    let before = at - from;
    let after = from + extent - (at + len);
    &&& len == min_v(asked, extent)
    &&& before - after <= 1
    &&& after - before <= 1
}

/// `ratatui::layout::Layout::split`, on a layout made by `Layout::vertical` or `Layout::horizontal`
/// with the sizes as constraints, and with `Flex::Center` for the centered divisions. Claimed of
/// it: it gives one area for each size, each lies in the area that is divided, and across the
/// direction of the division each is as large as that. Where rows have room, each has its size
/// (`Constraint::Length` sets it, `Constraint::Min` bounds it from below), they follow one another
/// from the top without gaps, and one that may grow takes what is left. A single centered part of a
/// length has that length, as far as there is room, and as much before it as after it, to within a
/// cell. How rows share an area that is too small for them, its solver decides, which walks hash
/// tables on its way; nothing is claimed of that.
#[verifier::external_body]
fn split(area: Rect, division: Division, sizes: &Vec<Size>) -> (r: Vec<Rect>)
    ensures
        r@.len() == sizes@.len(),
        on_grid(area) ==> all_within(r@, area),
        on_grid(area) && !(division is CenteredColumns) ==> all_as_wide(r@, area),
        on_grid(area) && division is CenteredColumns ==> all_as_high(r@, area),
        on_grid(area) && division is Rows && has_room(sizes@, area.height as int) ==> stacked(
            r@,
            area,
            sizes@,
        ),
        on_grid(area) && division is CenteredRows && sizes@.len() == 1 && sizes@[0] is Length
            ==> in_middle(
            r@[0].y as int,
            r@[0].height as int,
            area.y as int,
            area.height as int,
            sizes@[0].least(),
        ),
        on_grid(area) && division is CenteredColumns && sizes@.len() == 1 && sizes@[0] is Length
            ==> in_middle(
            r@[0].x as int,
            r@[0].width as int,
            area.x as int,
            area.width as int,
            sizes@[0].least(),
        ),
{
    let list = sizes.iter().map(|s| match s {
        Size::Length(n) => Constraint::Length(*n),
        Size::Min(n) => Constraint::Min(*n),
    });
    let layout = match division {
        Division::Rows => Layout::vertical(list),
        Division::CenteredRows => Layout::vertical(list).flex(Flex::Center),
        Division::CenteredColumns => Layout::horizontal(list).flex(Flex::Center),
    };
    let outer = ratatui::layout::Rect::new(area.x, area.y, area.width, area.height);
    let parts = layout.split(outer);
    parts.iter().map(|p| Rect { x: p.x, y: p.y, width: p.width, height: p.height }).collect()
}

/// The parts of an area from the top down, one for each size.
pub(crate) fn rows(area: Rect, sizes: &Vec<Size>) -> (r: Vec<Rect>)
    ensures
        r@.len() == sizes@.len(),
        on_grid(area) ==> all_within(r@, area) && all_as_wide(r@, area),
        on_grid(area) && has_room(sizes@, area.height as int) ==> stacked(r@, area, sizes@),
{
    split(area, Division::Rows, sizes)
}

/// Is an area in the middle of another, of the size that was asked as far as that fits?
pub open spec fn centered(part: Rect, area: Rect, width: int, height: int) -> bool {
    &&& in_middle(part.x as int, part.width as int, area.x as int, area.width as int, width)
    &&& in_middle(part.y as int, part.height as int, area.y as int, area.height as int, height)
}

/// The rows of an area from `y` on.
pub open spec fn row_v(area: Rect, y: int, height: int) -> Rect {
    Rect { x: area.x, y: y as u16, width: area.width, height: height as u16 }
}

/// An area of a size in the middle of another.
pub(crate) fn center(area: Rect, width: u16, height: u16) -> (r: Rect)
    ensures
        on_grid(area) ==> within(r, area) && centered(r, area, width as int, height as int),
{
    let wide: Vec<Size> = vec![Size::Length(width)];
    let columns = split(area, Division::CenteredColumns, &wide);
    let high: Vec<Size> = vec![Size::Length(height)];
    let middle = split(columns[0], Division::CenteredRows, &high);
    middle[0]
}

/// The smaller of two numbers.
pub open spec fn min_v(a: int, b: int) -> int {
    if a < b {
        a
    } else {
        b
    }
}

/// A number less another, and not below zero.
pub open spec fn less_v(a: int, b: int) -> int {
    if a > b {
        a - b
    } else {
        0
    }
}

/// What is left of an area within a frame.
pub open spec fn inside_v(area: Rect) -> Rect {
    Rect {
        x: min_v(min_v(area.x + 1, 0xffff), min_v(area.x + area.width, 0xffff)) as u16,
        y: min_v(min_v(area.y + 1, 0xffff), min_v(area.y + area.height, 0xffff)) as u16,
        width: less_v(area.width as int, 2) as u16,
        height: less_v(area.height as int, 2) as u16,
    }
}

/// A place moved by one, not beyond the end of what starts there.
fn step(at: u16, len: u16) -> (r: u16)
    ensures
        r == min_v(min_v(at + 1, 0xffff), min_v(at + len, 0xffff)),
{
    if len == 0 {
        at
    } else {
        at.saturating_add(1)
    }
}

impl Rect {
    /// What is left of an area within a frame.
    pub fn inside(self) -> (r: Rect)
        ensures
            r == inside_v(self),
    {
        Rect {
            x: step(self.x, self.width),
            y: step(self.y, self.height),
            width: self.width.saturating_sub(2),
            height: self.height.saturating_sub(2),
        }
    }
}

/// Something to draw.
pub enum Op {
    /// Lines of text, each in a row of its own.
    Text { area: Rect, lines: Vec<Line>, centered: bool },
    /// Lines of text, wrapped to the width, from one of the wrapped rows on.
    Wrapped { area: Rect, lines: Vec<Line>, scroll: u16 },
    /// A frame with a title, over a cleared area.
    Frame { area: Rect, title: String, title_style: Style, border_style: Style },
}

/// The mathematical value of an [`Op`].
#[verifier::ext_equal]
pub ghost enum OpV {
    Text { area: Rect, lines: Seq<TextV>, centered: bool },
    Wrapped { area: Rect, lines: Seq<TextV>, scroll: u16 },
    Frame { area: Rect, title: Seq<char>, title_style: Style, border_style: Style },
}

impl OpV {
    /// The area that is drawn to.
    pub open spec fn area(self) -> Rect {
        match self {
            OpV::Text { area, .. } => area,
            OpV::Wrapped { area, .. } => area,
            OpV::Frame { area, .. } => area,
        }
    }
}

impl DeepView for Op {
    type V = OpV;

    open spec fn deep_view(&self) -> OpV {
        match *self {
            Op::Text { area, lines, centered } => OpV::Text {
                area,
                lines: lines.deep_view(),
                centered,
            },
            Op::Wrapped { area, lines, scroll } => OpV::Wrapped {
                area,
                lines: lines.deep_view(),
                scroll,
            },
            Op::Frame { area, title, title_style, border_style } => OpV::Frame {
                area,
                title: title@,
                title_style,
                border_style,
            },
        }
    }
}

/// Appends something to draw.
pub fn push_op(ops: &mut Vec<Op>, op: Op)
    ensures
        final(ops).deep_view() == old(ops).deep_view().push(op.deep_view()),
{
    ops.push(op);
    assert(ops.deep_view() =~= old(ops).deep_view().push(op.deep_view()));
}

/// Appends more to draw.
pub fn append_ops(ops: &mut Vec<Op>, more: Vec<Op>)
    ensures
        final(ops).deep_view() == old(ops).deep_view() + more.deep_view(),
{
    let mut rest = more;
    ops.append(&mut rest);
    assert(ops.deep_view() =~= old(ops).deep_view() + more.deep_view());
}

/// Nothing to draw.
pub fn no_ops() -> (r: Vec<Op>)
    ensures
        r.deep_view() == Seq::<OpV>::empty(),
{
    let r: Vec<Op> = Vec::new();
    assert(r.deep_view() =~= Seq::<OpV>::empty());
    r
}

/// Is everything drawn in an area?
pub open spec fn drawn_within(ops: Seq<OpV>, area: Rect) -> bool {
    forall|i: int| 0 <= i < ops.len() ==> within((#[trigger] ops[i]).area(), area)
}

/// What is drawn in an area stays there when more is drawn there.
pub proof fn lemma_drawn_sum(a: Seq<OpV>, b: Seq<OpV>, area: Rect)
    requires
        drawn_within(a, area),
        drawn_within(b, area),
    ensures
        drawn_within(a + b, area),
{
    assert forall|i: int| 0 <= i < (a + b).len() implies within((#[trigger] (a + b)[i]).area(), area) by {
        if i >= a.len() {
            assert((a + b)[i] == b[i - a.len()]);
        } else {
            assert((a + b)[i] == a[i]);
        }
    }
}

/// Lines of text in an area.
pub open spec fn text_op_v(area: Rect, lines: Seq<TextV>) -> OpV {
    OpV::Text { area, lines, centered: false }
}

/// A framed box with lines of text.
pub open spec fn box_v(
    area: Rect,
    title: Seq<char>,
    title_style: Style,
    border_style: Style,
    lines: Seq<TextV>,
) -> Seq<OpV> {
    seq![
        OpV::Frame { area, title, title_style, border_style },
        text_op_v(inside_v(area), lines),
    ]
}

/// A framed box with lines of text.
pub fn boxed(area: Rect, title: &str, title_style: Style, border_style: Style, lines: Vec<Line>) -> (r:
    Vec<Op>)
    ensures
        r.deep_view() == box_v(area, title@, title_style, border_style, lines.deep_view()),
{
    let mut ops = no_ops();
    push_op(&mut ops, Op::Frame { area, title: title.to_owned(), title_style, border_style });
    push_op(&mut ops, Op::Text { area: area.inside(), lines, centered: false });
    assert(ops.deep_view() =~= box_v(area, title@, title_style, border_style, lines.deep_view()));
    ops
}

} // verus!
