//! A line of source text as cells, each a character in a style, and as spans.
use std::collections::HashSet;
use vstd::prelude::*;

use crate::style;
use crate::text;
use crate::width;
use crate::style::{Color, Span, SpanV, Style, no_spans, push_styled};
use crate::syntax::Seg;
use crate::text::{chars_of, contains, matches_at, to_lowercase};
use crate::width::char_width;

verus! {

broadcast use {vstd::seq_lib::group_seq_properties, vstd::std_specs::hash::group_hash_axioms};

/// The columns between two tab stops.
pub const TABSTOP: usize = 4;

// ---- Cells ----

/// The characters of a text, all in a style.
pub open spec fn styled_chars_v(text: Seq<char>, style: Style) -> Seq<(char, Style)> {
    text.map_values(|c: char| (c, style))
}

/// The characters of segments, each in the style of its segment.
pub open spec fn flat_v(segs: Seq<(Seq<char>, Style)>) -> Seq<(char, Style)>
    decreases segs.len(),
{
    if segs.len() == 0 {
        Seq::empty()
    } else {
        flat_v(segs.drop_last()) + styled_chars_v(segs.last().0, segs.last().1)
    }
}

/// What a line is painted with: the characters that changed, those that a search found, and the
/// backgrounds.
pub ghost struct PaintV {
    pub intra: Set<usize>,
    pub search: Set<usize>,
    pub base_bg: Option<Color>,
    pub strong_bg: Option<Color>,
    pub search_bg: Color,
}

impl PaintV {
    /// The style of the character at an index: a search hit comes before a change, a change before
    /// the background of the line.
    pub open spec fn style(self, style: Style, i: int) -> Style {
        if self.search.contains(i as usize) {
            style.with_bg_v(self.search_bg).with_fg_v(Color::Black)
        } else {
            match if self.intra.contains(i as usize) {
                self.strong_bg
            } else {
                self.base_bg
            } {
                Some(c) => style.with_bg_v(c),
                None => style,
            }
        }
    }
}

/// The cells of the first `k` characters, and the column after them. A tab goes to the next tab
/// stop.
pub open spec fn cells_v(chars: Seq<(char, Style)>, paint: PaintV, k: nat) -> (
    Seq<(char, Style)>,
    int,
)
    decreases k,
{
    if k == 0 {
        (Seq::empty(), 0)
    } else {
        let (out, col) = cells_v(chars, paint, (k - 1) as nat);
        let (c, s) = chars[k - 1];
        let style = paint.style(s, k - 1);
        if c == '\t' {
            let n = TABSTOP - col % (TABSTOP as int);
            (out + Seq::new(n as nat, |i: int| (' ', style)), col + n)
        } else {
            (out.push((c, style)), col + width::char_width_v(c))
        }
    }
}

/// What a line is painted with.
pub struct Paint<'a> {
    pub intra: Option<&'a HashSet<usize>>,
    pub search: Option<&'a HashSet<usize>>,
    pub base_bg: Option<Color>,
    pub strong_bg: Option<Color>,
    pub search_bg: Color,
}

/// A set that may be missing.
pub open spec fn set_view(set: Option<&HashSet<usize>>) -> Set<usize> {
    match set {
        Some(s) => s@,
        None => Set::empty(),
    }
}

/// Is a number in a set that may be missing?
fn holds(set: Option<&HashSet<usize>>, i: usize) -> (r: bool)
    ensures
        r == set_view(set).contains(i),
{
    match set {
        Some(s) => s.contains(&i),
        None => false,
    }
}

impl<'a> Paint<'a> {
    /// The mathematical value.
    pub open spec fn value(&self) -> PaintV {
        PaintV {
            intra: set_view(self.intra),
            search: set_view(self.search),
            base_bg: self.base_bg,
            strong_bg: self.strong_bg,
            search_bg: self.search_bg,
        }
    }

    /// The style of the character at an index.
    fn style(&self, style: Style, i: usize) -> (r: Style)
        ensures
            r == self.value().style(style, i as int),
    {
        if holds(self.search, i) {
            return style.bg(self.search_bg).fg(Color::Black);
        }
        let bg: Option<Color> = if holds(self.intra, i) {
            self.strong_bg
        } else {
            self.base_bg
        };
        match bg {
            Some(c) => style.bg(c),
            None => style,
        }
    }
}

/// The characters of segments, each in the style of its segment.
fn flatten(segs: &Vec<Seg>) -> (r: Vec<(char, Style)>)
    ensures
        r@ == flat_v(segs.deep_view()),
{
    let ghost all = segs.deep_view();
    let mut out: Vec<(char, Style)> = Vec::new();
    let mut i: usize = 0;
    assert(all.take(0) =~= Seq::empty());
    while i < segs.len()
        invariant
            i <= segs@.len(),
            all == segs.deep_view(),
            out@ == flat_v(all.take(i as int)),
        decreases segs@.len() - i,
    {
        let style: Style = segs[i].1;
        let cs = chars_of(segs[i].0.as_str());
        assert(all[i as int] == (segs@[i as int].0@, segs@[i as int].1));
        assert(all.take(i + 1).drop_last() =~= all.take(i as int));
        let ghost before = out@;
        let mut k: usize = 0;
        while k < cs.len()
            invariant
                k <= cs@.len(),
                out@ =~= before + styled_chars_v(cs@, style).take(k as int),
            decreases cs@.len() - k,
        {
            out.push((cs[k], style));
            k = k + 1;
        }
        assert(styled_chars_v(cs@, style).take(cs@.len() as int) =~= styled_chars_v(cs@, style));
        i = i + 1;
    }
    assert(all.take(all.len() as int) =~= all);
    out
}

/// The cells of segments: tabs become spaces, and what changed or was found gets its background.
pub fn expand_style(segs: &Vec<Seg>, paint: &Paint) -> (r: Vec<(char, Style)>)
    ensures
        r@ == cells_v(
            flat_v(segs.deep_view()),
            paint.value(),
            flat_v(segs.deep_view()).len(),
        ).0,
{
    let chars = flatten(segs);
    let ghost p = paint.value();
    let mut out: Vec<(char, Style)> = Vec::new();
    let mut col: usize = 0;
    let mut i: usize = 0;
    while i < chars.len()
        invariant
            i <= chars@.len(),
            p == paint.value(),
            out@ == cells_v(chars@, p, i as nat).0,
            col == cells_v(chars@, p, i as nat).1 % (TABSTOP as int),
            col < TABSTOP,
        decreases chars@.len() - i,
    {
        let (c, s) = chars[i];
        let style: Style = paint.style(s, i);
        let ghost before = out@;
        let ghost at = cells_v(chars@, p, i as nat).1;
        if c == '\t' {
            let n: usize = TABSTOP - col;
            let mut k: usize = 0;
            while k < n
                invariant
                    k <= n,
                    out@ =~= before + Seq::new(k as nat, |i: int| (' ', style)),
                decreases n - k,
            {
                out.push((' ', style));
                k = k + 1;
            }
            col = 0;
        } else {
            out.push((c, style));
            col = (col + char_width(c) % TABSTOP) % TABSTOP;
        }
        i = i + 1;
    }
    out
}

// ---- Spans ----

/// Cells as spans: one for each run of cells in the same style.
pub open spec fn coalesce_v(cells: Seq<(char, Style)>) -> Seq<SpanV>
    decreases cells.len(),
{
    if cells.len() == 0 {
        Seq::empty()
    } else {
        let before = coalesce_v(cells.drop_last());
        let (c, style) = cells.last();
        if before.len() > 0 && before.last().style == style {
            before.update(
                before.len() - 1,
                style::styled_v(before.last().content.push(c), style),
            )
        } else {
            before.push(style::styled_v(seq![c], style))
        }
    }
}

/// The lines that are full, the line that is being filled, and its width.
pub ghost struct WrapV {
    pub lines: Seq<Seq<(char, Style)>>,
    pub cur: Seq<(char, Style)>,
    pub col: int,
}

/// The first `k` cells in lines of a width, or in one line where there is none.
pub open spec fn wrap_v(cells: Seq<(char, Style)>, width: Option<int>, k: nat) -> WrapV
    decreases k,
{
    if k == 0 {
        WrapV { lines: Seq::empty(), cur: Seq::empty(), col: 0 }
    } else {
        let w = wrap_v(cells, width, (k - 1) as nat);
        let cw = width::char_width_v(cells[k - 1].0);
        if width matches Some(max) && w.col + cw > max && w.cur.len() > 0 {
            WrapV { lines: w.lines.push(w.cur), cur: seq![cells[k - 1]], col: cw }
        } else {
            WrapV { cur: w.cur.push(cells[k - 1]), col: w.col + cw, ..w }
        }
    }
}

/// Cells in lines of at most a width.
pub open spec fn wrapped_v(cells: Seq<(char, Style)>, width: Option<int>) -> Seq<Seq<(char, Style)>> {
    let w = wrap_v(cells, width, cells.len());
    w.lines.push(w.cur)
}

/// Cells in lines of at most a width, as spans.
pub open spec fn visual_lines_v(cells: Seq<(char, Style)>, width: Option<int>) -> Seq<Seq<SpanV>> {
    wrapped_v(cells, width).map_values(|l: Seq<(char, Style)>| coalesce_v(l))
}

/// Cells as spans.
fn coalesce(cells: &Vec<(char, Style)>) -> (r: Vec<Span>)
    ensures
        r.deep_view() == coalesce_v(cells@),
{
    let mut spans = no_spans();
    let mut i: usize = 0;
    assert(cells@.take(0) =~= Seq::empty());
    while i < cells.len()
        invariant
            i <= cells@.len(),
            spans.deep_view() == coalesce_v(cells@.take(i as int)),
        decreases cells@.len() - i,
    {
        let (c, style) = cells[i];
        let ghost before = spans.deep_view();
        assert(cells@.take(i + 1).drop_last() =~= cells@.take(i as int));
        let n: usize = spans.len();
        let grown: bool = if n > 0 {
            assert(before[n - 1] == spans@[n - 1].deep_view());
            spans[n - 1].style.same(style)
        } else {
            false
        };
        if grown {
            let mut last = spans[n - 1].clone();
            last.content.push(c);
            spans.set(n - 1, last);
            assert(spans.deep_view() =~= before.update(
                n - 1,
                style::styled_v(before.last().content.push(c), style),
            ));
        } else {
            let mut s = String::new();
            s.push(c);
            push_styled(&mut spans, s.as_str(), style);
            assert(s@ =~= seq![c]);
            assert(spans.deep_view() =~= before.push(style::styled_v(seq![c], style)));
        }
        i = i + 1;
    }
    assert(cells@.take(cells@.len() as int) =~= cells@);
    spans
}

/// A width; the largest number stands for none.
pub open spec fn width_view(width: usize) -> Option<int> {
    if width == usize::MAX {
        None
    } else {
        Some(width as int)
    }
}

/// Cells in lines of at most a width, as spans. The largest number stands for no width: all cells
/// are in one line.
pub fn visual_lines(cells: &Vec<(char, Style)>, width: usize) -> (r: Vec<Vec<Span>>)
    ensures
        r.deep_view() == visual_lines_v(cells@, width_view(width)),
        r@.len() > 0,
{
    let ghost w = width_view(width);
    let mut lines: Vec<Vec<Span>> = Vec::new();
    let mut cur: Vec<(char, Style)> = Vec::new();
    let mut col: usize = 0;
    let mut i: usize = 0;
    assert(lines.deep_view() =~= Seq::empty());
    while i < cells.len()
        invariant
            i <= cells@.len(),
            w == width_view(width),
            lines.deep_view() =~= wrap_v(cells@, w, i as nat).lines.map_values(
                |l: Seq<(char, Style)>| coalesce_v(l),
            ),
            cur@ == wrap_v(cells@, w, i as nat).cur,
            col == wrap_v(cells@, w, i as nat).col || (col == usize::MAX && wrap_v(
                cells@,
                w,
                i as nat,
            ).col > usize::MAX),
        decreases cells@.len() - i,
    {
        let cell = cells[i];
        let cw: usize = char_width(cell.0);
        let next: usize = col.saturating_add(cw);
        let full: bool = width != usize::MAX && next > width && cur.len() > 0;
        let ghost before = lines.deep_view();
        let ghost at = wrap_v(cells@, w, i as nat);
        if full {
            let spans = coalesce(&cur);
            let ghost sv = spans.deep_view();
            lines.push(spans);
            assert(lines.deep_view() =~= before.push(sv));
            assert(at.lines.push(at.cur).map_values(|l: Seq<(char, Style)>| coalesce_v(l))
                =~= at.lines.map_values(|l: Seq<(char, Style)>| coalesce_v(l)).push(
                coalesce_v(at.cur),
            ));
            cur = Vec::new();
            cur.push(cell);
            col = cw;
            assert(cur@ =~= seq![cell]);
        } else {
            cur.push(cell);
            col = next;
        }
        i = i + 1;
    }
    let ghost at = wrap_v(cells@, w, cells@.len());
    let ghost before = lines.deep_view();
    let spans = coalesce(&cur);
    let ghost sv = spans.deep_view();
    lines.push(spans);
    assert(lines.deep_view() =~= before.push(sv));
    assert(lines.deep_view() =~= visual_lines_v(cells@, w));
    lines
}

/// Wrapping keeps the cells, all and in order; and a wrapped line fits the width, or is one
/// character that alone is wider.
pub proof fn law_wrapping_keeps_cells(cells: Seq<(char, Style)>, width: Option<int>)
    ensures
        wrapped_v(cells, width).flatten() == cells,
        forall|i: int|
            0 <= i < wrapped_v(cells, width).len() ==> fits(#[trigger] wrapped_v(cells, width)[i], width),
{
    lemma_wrap(cells, width, cells.len());
    let w = wrap_v(cells, width, cells.len());
    assert(cells.take(cells.len() as int) =~= cells);
    lemma_flatten_push(w.lines, w.cur);
}

/// The columns that cells take.
pub open spec fn cells_width_v(cells: Seq<(char, Style)>) -> int
    decreases cells.len(),
{
    if cells.len() == 0 {
        0
    } else {
        cells_width_v(cells.drop_last()) + width::char_width_v(cells.last().0)
    }
}

/// A line fits a width, or is one character.
pub open spec fn fits(line: Seq<(char, Style)>, width: Option<int>) -> bool {
    width matches Some(max) ==> cells_width_v(line) <= max || line.len() <= 1
}

proof fn lemma_flatten_push(lines: Seq<Seq<(char, Style)>>, line: Seq<(char, Style)>)
    ensures
        lines.push(line).flatten() == lines.flatten() + line,
    decreases lines.len(),
{
    let all = lines.push(line);
    if lines.len() == 0 {
        assert(all.drop_first() =~= Seq::empty());
        assert(all.flatten() =~= lines.flatten() + line);
    } else {
        assert(all.drop_first() =~= lines.drop_first().push(line));
        lemma_flatten_push(lines.drop_first(), line);
        assert(all.flatten() =~= lines.flatten() + line);
    }
}

proof fn lemma_wrap(cells: Seq<(char, Style)>, width: Option<int>, k: nat)
    requires
        k <= cells.len(),
    ensures
        ({
            let w = wrap_v(cells, width, k);
            &&& w.lines.flatten() + w.cur == cells.take(k as int)
            &&& w.col == cells_width_v(w.cur)
            &&& fits(w.cur, width)
            &&& forall|i: int| 0 <= i < w.lines.len() ==> fits(#[trigger] w.lines[i], width)
        }),
    decreases k,
{
    let w = wrap_v(cells, width, k);
    if k == 0 {
        assert(w.lines.flatten() + w.cur =~= cells.take(0));
    } else {
        lemma_wrap(cells, width, (k - 1) as nat);
        let b = wrap_v(cells, width, (k - 1) as nat);
        assert(cells.take(k as int) =~= cells.take(k - 1).push(cells[k - 1]));
        if w.lines == b.lines {
            assert(w.cur == b.cur.push(cells[k - 1]));
            assert(w.cur.drop_last() =~= b.cur);
            assert(w.lines.flatten() + w.cur =~= cells.take(k as int));
        } else {
            lemma_flatten_push(b.lines, b.cur);
            assert(w.cur =~= Seq::<(char, Style)>::empty().push(cells[k - 1]));
            assert(w.cur.drop_last() =~= Seq::empty());
            assert(cells_width_v(w.cur.drop_last()) == 0);
            assert(w.lines.flatten() + w.cur =~= cells.take(k as int));
        }
    }
}

// ---- Search ----

/// The characters that matches of `needle` cover, from `i` on; matches do not overlap.
pub open spec fn hits_v(hay: Seq<char>, needle: Seq<char>, i: int) -> Set<usize>
    decreases hay.len() - i,
{
    if i < 0 || needle.len() == 0 || i + needle.len() > hay.len() {
        Set::empty()
    } else if needle.is_prefix_of(hay.skip(i)) {
        Set::new(|j: usize| i <= j < i + needle.len()).union(
            hits_v(hay, needle, i + needle.len()),
        )
    } else {
        hits_v(hay, needle, i + 1)
    }
}

/// The characters of a text that matches of a query cover, whatever the case. Nothing without a
/// query, without a match, and where the text changes its length in lower case.
pub open spec fn search_chars_v(content: Seq<char>, query: Seq<char>) -> Option<Set<usize>> {
    let hay = text::lowercase(content);
    let needle = text::lowercase(query);
    if query.len() == 0 || !text::contains_v(hay, needle) || needle.len() == 0 || hay.len()
        != content.len() {
        None
    } else {
        Some(hits_v(hay, needle, 0))
    }
}

/// A machine set as a mathematical one.
pub open spec fn hits_view(set: Option<HashSet<usize>>) -> Option<Set<usize>> {
    match set {
        Some(s) => Some(s@),
        None => None,
    }
}

/// The characters of a text that matches of a query cover, where there are any.
pub fn search_chars(content: &str, query: &str) -> (r: Option<HashSet<usize>>)
    ensures
        hits_view(r) == search_chars_v(content@, query@),
{
    if query.is_empty() {
        return None;
    }
    let lower = to_lowercase(content);
    let needle = to_lowercase(query);
    if !contains(lower.as_str(), needle.as_str()) {
        return None;
    }
    let hay = chars_of(lower.as_str());
    let ns = chars_of(needle.as_str());
    let n: usize = ns.len();
    if n == 0 || hay.len() != chars_of(content).len() {
        return None;
    }
    let mut hits: HashSet<usize> = HashSet::new();
    let mut i: usize = 0;
    let len: usize = hay.len();
    assert(hits@.union(hits_v(hay@, ns@, 0)) =~= hits_v(hay@, ns@, 0));
    while i <= len && n <= len - i
        invariant
            n == ns@.len(),
            n > 0,
            len == hay@.len(),
            i <= len,
            hits@.union(hits_v(hay@, ns@, i as int)) == hits_v(hay@, ns@, 0),
        decreases len - i,
    {
        if matches_at(&hay, i, &ns) {
            let ghost before = hits@;
            let mut j: usize = i;
            while j < i + n
                invariant
                    i <= j <= i + n,
                    i + n <= len,
                    hits@ =~= before.union(Set::new(|x: usize| i <= x < j)),
                decreases i + n - j,
            {
                hits.insert(j);
                j = j + 1;
            }
            i = i + n;
            assert(hits@.union(hits_v(hay@, ns@, i as int)) =~= hits_v(hay@, ns@, 0));
        } else {
            i = i + 1;
        }
    }
    assert(hits@ =~= hits_v(hay@, ns@, 0));
    Some(hits)
}

} // verus!
