//! Markdown as lines of styled text, for explanations.
//!
//! Headings, lists, quotes, fenced code, and within a line bold, italic and code. What does not
//! close reads as it stands, and nothing is an error: the text may still be arriving.
use vstd::prelude::*;
use vstd::string::*;

use crate::style;
use crate::text;
use crate::style::{
    Line, Span, SpanV, Style, TextV, no_lines, no_spans, push_line, push_raw, push_spans,
    push_styled,
};
use crate::text::{byte_len, chars_of, lines, repeat, slice_string, starts_with, trim_start};
use crate::theme::Theme;

verus! {

broadcast use vstd::seq_lib::group_seq_properties;

// ---- Within a line ----

/// The next place of a character, from `i` on; the end where there is none.
pub open spec fn next_v(cs: Seq<char>, c: char, i: int) -> int
    decreases cs.len() - i,
{
    if i >= cs.len() || cs[i] == c {
        i
    } else {
        next_v(cs, c, i + 1)
    }
}

/// The next place of two stars, from `i` on; beyond the last but one character where there is none.
pub open spec fn next_stars_v(cs: Seq<char>, i: int) -> int
    decreases cs.len() - i,
{
    if i + 1 >= cs.len() || cs[i] == '*' && cs[i + 1] == '*' {
        i
    } else {
        next_stars_v(cs, i + 1)
    }
}

/// The next place is not before the start.
pub proof fn lemma_next(cs: Seq<char>, c: char, i: int)
    ensures
        next_v(cs, c, i) >= i,
        i <= cs.len() ==> next_v(cs, c, i) <= cs.len(),
    decreases cs.len() - i,
{
    if i < cs.len() && cs[i] != c {
        lemma_next(cs, c, i + 1);
    }
}

/// The next place is not before the start.
pub proof fn lemma_next_stars(cs: Seq<char>, i: int)
    ensures
        next_stars_v(cs, i) >= i,
    decreases cs.len() - i,
{
    if i + 1 < cs.len() && !(cs[i] == '*' && cs[i + 1] == '*') {
        lemma_next_stars(cs, i + 1);
    }
}

/// What a marker at `i` encloses.
pub ghost enum MarkV {
    /// No marker, or one that does not close.
    Plain,
    Code(int),
    Bold(int),
    Italic(int),
}

/// The marker at `i`, with the place where it closes.
pub open spec fn mark_v(cs: Seq<char>, i: int) -> MarkV {
    let n = cs.len() as int;
    if cs[i] == '`' && next_v(cs, '`', i + 1) < n {
        MarkV::Code(next_v(cs, '`', i + 1))
    } else if cs[i] == '*' && i + 1 < n && cs[i + 1] == '*' && next_stars_v(cs, i + 2) + 1 < n {
        MarkV::Bold(next_stars_v(cs, i + 2))
    } else if cs[i] == '*' && (i + 1 >= n || cs[i + 1] != '*') && next_v(cs, '*', i + 1) < n {
        MarkV::Italic(next_v(cs, '*', i + 1))
    } else {
        MarkV::Plain
    }
}

/// Pending text as a span.
pub open spec fn flushed_v(buf: Seq<char>, base: Style) -> Seq<SpanV> {
    if buf.len() == 0 {
        Seq::empty()
    } else {
        seq![style::styled_v(buf, base)]
    }
}

/// The spans of a text from `i` on, behind the pending text.
pub open spec fn inline_from_v(
    cs: Seq<char>,
    i: int,
    buf: Seq<char>,
    base: Style,
    theme: Theme,
) -> Seq<SpanV>
    decreases cs.len() - i,
{
    if i >= cs.len() || i < 0 {
        flushed_v(buf, base)
    } else {
        proof {
            lemma_next(cs, '`', i + 1);
            lemma_next(cs, '*', i + 1);
            lemma_next_stars(cs, i + 2);
        }
        match mark_v(cs, i) {
            MarkV::Code(close) => flushed_v(buf, base).push(
                style::styled_v(cs.subrange(i + 1, close), base.with_bg_v(theme.bg_selected)),
            ) + inline_from_v(cs, close + 1, Seq::empty(), base, theme),
            MarkV::Bold(close) => flushed_v(buf, base).push(
                style::styled_v(cs.subrange(i + 2, close), base.with_bold_v()),
            ) + inline_from_v(cs, close + 2, Seq::empty(), base, theme),
            MarkV::Italic(close) => flushed_v(buf, base).push(
                style::styled_v(cs.subrange(i + 1, close), base.with_italic_v()),
            ) + inline_from_v(cs, close + 1, Seq::empty(), base, theme),
            MarkV::Plain => inline_from_v(cs, i + 1, buf.push(cs[i]), base, theme),
        }
    }
}

/// The spans of a line of text; one at least.
pub open spec fn inline_v(text: Seq<char>, base: Style, theme: Theme) -> Seq<SpanV> {
    let spans = inline_from_v(text, 0, Seq::empty(), base, theme);
    if spans.len() == 0 {
        seq![style::styled_v(Seq::empty(), base)]
    } else {
        spans
    }
}

/// The next place of a character, from `i` on.
fn next(cs: &Vec<char>, c: char, i: usize) -> (r: usize)
    requires
        i <= cs@.len(),
    ensures
        r == next_v(cs@, c, i as int),
        i <= r <= cs@.len(),
{
    let mut j: usize = i;
    while j < cs.len() && cs[j] != c
        invariant
            i <= j <= cs@.len(),
            next_v(cs@, c, j as int) == next_v(cs@, c, i as int),
        decreases cs@.len() - j,
    {
        j = j + 1;
    }
    j
}

/// The next place of two stars, at or after `from`, where there is one.
fn find_double_star(cs: &Vec<char>, from: usize) -> (r: Option<usize>)
    requires
        from <= cs@.len(),
    ensures
        match r {
            Some(j) => j == next_stars_v(cs@, from as int) && from <= j && j + 1 < cs@.len(),
            None => next_stars_v(cs@, from as int) + 1 >= cs@.len(),
        },
{
    let n: usize = cs.len();
    let mut j: usize = from;
    while j < n && j + 1 < n
        invariant
            from <= j <= cs@.len(),
            n == cs@.len(),
            next_stars_v(cs@, j as int) == next_stars_v(cs@, from as int),
        decreases cs@.len() - j,
    {
        if cs[j] == '*' && cs[j + 1] == '*' {
            return Some(j);
        }
        j = j + 1;
    }
    None
}

/// The marker at a place, with the place where it closes.
enum Mark {
    Plain,
    Code(usize),
    Bold(usize),
    Italic(usize),
}

/// The mathematical value of a marker.
spec fn mark_view(m: Mark) -> MarkV {
    match m {
        Mark::Plain => MarkV::Plain,
        Mark::Code(c) => MarkV::Code(c as int),
        Mark::Bold(c) => MarkV::Bold(c as int),
        Mark::Italic(c) => MarkV::Italic(c as int),
    }
}

/// The marker at `i`.
fn mark(cs: &Vec<char>, i: usize) -> (r: Mark)
    requires
        i < cs@.len(),
    ensures
        mark_view(r) == mark_v(cs@, i as int),
        match r {
            Mark::Plain => true,
            Mark::Code(c) => i < c < cs@.len(),
            Mark::Bold(c) => i + 1 < c && c + 1 < cs@.len(),
            Mark::Italic(c) => i < c < cs@.len(),
        },
{
    let n: usize = cs.len();
    let c: char = cs[i];
    if c == '`' {
        let close: usize = next(cs, '`', i + 1);
        if close < n {
            return Mark::Code(close);
        }
        return Mark::Plain;
    }
    if c != '*' {
        return Mark::Plain;
    }
    if i + 1 < n && cs[i + 1] == '*' {
        match find_double_star(cs, i + 2) {
            Some(close) => Mark::Bold(close),
            None => Mark::Plain,
        }
    } else {
        let close: usize = next(cs, '*', i + 1);
        if close < n {
            Mark::Italic(close)
        } else {
            Mark::Plain
        }
    }
}

/// Appends pending text, and forgets it.
fn flush(buf: &mut String, spans: &mut Vec<Span>, base: Style)
    ensures
        final(buf)@.len() == 0,
        final(spans).deep_view() == old(spans).deep_view() + flushed_v(old(buf)@, base),
{
    if !buf.as_str().is_empty() {
        push_styled(spans, buf.as_str(), base);
        *buf = String::new();
    }
    assert(spans.deep_view() =~= old(spans).deep_view() + flushed_v(old(buf)@, base));
}

/// The spans of a line of text, over a style.
pub fn inline(text: &str, base: Style, theme: &Theme) -> (r: Vec<Span>)
    ensures
        r.deep_view() == inline_v(text@, base, *theme),
{
    let cs = chars_of(text);
    let ghost want = inline_from_v(cs@, 0, Seq::empty(), base, *theme);
    let mut spans = no_spans();
    let mut buf = String::new();
    let mut i: usize = 0;
    assert(buf@ =~= Seq::empty());
    assert(want =~= spans.deep_view() + want);
    while i < cs.len()
        invariant
            i <= cs@.len(),
            want == spans.deep_view() + inline_from_v(cs@, i as int, buf@, base, *theme),
        decreases cs@.len() - i,
    {
        let ghost before = spans.deep_view();
        let ghost pending = buf@;
        match mark(&cs, i) {
            Mark::Code(close) => {
                flush(&mut buf, &mut spans, base);
                let inner = slice_string(&cs, i + 1, close);
                push_styled(&mut spans, inner.as_str(), base.bg(theme.bg_selected));
                assert(buf@ =~= Seq::empty());
                assert(spans.deep_view() =~= before + flushed_v(pending, base).push(
                    style::styled_v(cs@.subrange(i + 1, close as int), base.with_bg_v(theme.bg_selected)),
                ));
                i = close + 1;
            },
            Mark::Bold(close) => {
                flush(&mut buf, &mut spans, base);
                let inner = slice_string(&cs, i + 2, close);
                push_styled(&mut spans, inner.as_str(), base.bold());
                assert(buf@ =~= Seq::empty());
                assert(spans.deep_view() =~= before + flushed_v(pending, base).push(
                    style::styled_v(cs@.subrange(i + 2, close as int), base.with_bold_v()),
                ));
                i = close + 2;
            },
            Mark::Italic(close) => {
                flush(&mut buf, &mut spans, base);
                let inner = slice_string(&cs, i + 1, close);
                push_styled(&mut spans, inner.as_str(), base.italic());
                assert(buf@ =~= Seq::empty());
                assert(spans.deep_view() =~= before + flushed_v(pending, base).push(
                    style::styled_v(cs@.subrange(i + 1, close as int), base.with_italic_v()),
                ));
                i = close + 1;
            },
            Mark::Plain => {
                buf.push(cs[i]);
                i = i + 1;
            },
        }
        assert(want =~= spans.deep_view() + inline_from_v(cs@, i as int, buf@, base, *theme));
    }
    flush(&mut buf, &mut spans, base);
    assert(spans.deep_view() =~= want);
    if spans.len() == 0 {
        push_styled(&mut spans, "", base);
        assert(""@ =~= Seq::empty()) by {
            reveal_strlit("");
        }
        assert(spans.deep_view() =~= seq![style::styled_v(Seq::empty(), base)]);
    }
    spans
}

// ---- Lines ----

/// How many hashes a text starts with, from `i` on.
pub open spec fn hashes_v(s: Seq<char>, i: int) -> int
    decreases s.len() - i,
{
    if 0 <= i < s.len() && s[i] == '#' {
        hashes_v(s, i + 1)
    } else {
        i
    }
}

/// What stands behind a prefix.
pub open spec fn strip_v(s: Seq<char>, prefix: Seq<char>) -> Option<Seq<char>> {
    if prefix.is_prefix_of(s) {
        Some(s.skip(prefix.len() as int))
    } else {
        None
    }
}

/// The text of a heading: behind one to six hashes and a space.
pub open spec fn heading_v(s: Seq<char>) -> Option<Seq<char>> {
    let n = hashes_v(s, 0);
    if 1 <= n <= 6 {
        strip_v(s.skip(n), " "@)
    } else {
        None
    }
}

/// The indent, in bytes, and the text of an item of a list.
pub open spec fn bullet_v(raw: Seq<char>) -> Option<(int, Seq<char>)> {
    let s = text::trim_start_v(raw);
    let indent = text::byte_len_v(raw) - text::byte_len_v(s);
    if "- "@.is_prefix_of(s) || "* "@.is_prefix_of(s) || "+ "@.is_prefix_of(s) {
        Some((indent, s.skip(2)))
    } else {
        None
    }
}

/// The line that shows a line of the text, outside fenced code.
pub open spec fn plain_line_v(raw: Seq<char>, theme: Theme) -> TextV {
    let body = style::fg_v(theme.secondary);
    let trimmed = text::trim_start_v(raw);
    match heading_v(trimmed) {
        Some(rest) => style::text_line_v(rest, style::fg_v(theme.accent).with_bold_v()),
        None => match strip_v(trimmed, "> "@) {
            Some(rest) => style::line_v(
                seq![style::styled_v("┃ "@, style::fg_v(theme.tertiary))] + inline_v(
                    rest,
                    body.with_italic_v(),
                    theme,
                ),
            ),
            None => match bullet_v(raw) {
                Some((indent, rest)) => style::line_v(
                    seq![
                        style::raw_v(text::repeat_v(' ', indent as nat)),
                        style::styled_v("• "@, style::fg_v(theme.accent)),
                    ] + inline_v(rest, body, theme),
                ),
                None => style::line_v(inline_v(raw, body, theme)),
            },
        },
    }
}

/// The lines that show the first `k` lines of the text, and whether the next is fenced code.
pub open spec fn render_lines_v(ls: Seq<Seq<char>>, theme: Theme, k: nat) -> (Seq<TextV>, bool)
    decreases k,
{
    if k == 0 {
        (Seq::empty(), false)
    } else {
        let (out, code) = render_lines_v(ls, theme, (k - 1) as nat);
        let raw = ls[k - 1];
        if "```"@.is_prefix_of(text::trim_start_v(raw)) {
            (out, !code)
        } else if code {
            (
                out.push(
                    style::text_line_v("  "@ + raw, style::fg_v(theme.secondary).with_bg_v(theme.bg_selected)),
                ),
                code,
            )
        } else {
            (out.push(plain_line_v(raw, theme)), code)
        }
    }
}

/// Markdown as lines of styled text.
pub open spec fn render_v(text: Seq<char>, theme: Theme) -> Seq<TextV> {
    render_lines_v(text::lines_v(text), theme, text::lines_v(text).len()).0
}

/// What stands behind a prefix.
fn strip(s: &str, prefix: &str) -> (r: Option<String>)
    ensures
        r.deep_view() == strip_v(s@, prefix@),
{
    if !starts_with(s, prefix) {
        return None;
    }
    let cs = chars_of(s);
    let ps = chars_of(prefix);
    let rest = slice_string(&cs, ps.len(), cs.len());
    assert(rest@ =~= s@.skip(prefix@.len() as int));
    Some(rest)
}

/// The text of a heading.
fn heading(trimmed: &str) -> (r: Option<String>)
    ensures
        r.deep_view() == heading_v(trimmed@),
{
    let cs = chars_of(trimmed);
    let mut n: usize = 0;
    while n < cs.len() && cs[n] == '#'
        invariant
            n <= cs@.len(),
            hashes_v(cs@, n as int) == hashes_v(cs@, 0),
        decreases cs@.len() - n,
    {
        n = n + 1;
    }
    if n < 1 || n > 6 {
        return None;
    }
    let rest = slice_string(&cs, n, cs.len());
    assert(rest@ =~= trimmed@.skip(n as int));
    strip(rest.as_str(), " ")
}

/// The indent and the text of an item of a list.
fn bullet(raw: &str) -> (r: Option<(usize, String)>)
    ensures
        match r {
            Some((indent, rest)) => bullet_v(raw@) == Some((indent as int, rest@)),
            None => bullet_v(raw@) is None,
        },
{
    let s = trim_start(raw);
    proof {
        lemma_trim_bytes(raw@);
        reveal_strlit("- ");
        reveal_strlit("* ");
        reveal_strlit("+ ");
    }
    let indent: usize = byte_len(raw) - byte_len(s.as_str());
    if starts_with(s.as_str(), "- ") || starts_with(s.as_str(), "* ") || starts_with(
        s.as_str(),
        "+ ",
    ) {
        let cs = chars_of(s.as_str());
        let rest = slice_string(&cs, 2, cs.len());
        assert(rest@ =~= s@.skip(2));
        return Some((indent, rest));
    }
    None
}

/// What is trimmed off a text takes no negative number of bytes.
proof fn lemma_trim_bytes(s: Seq<char>)
    ensures
        text::byte_len_v(text::trim_start_v(s)) <= text::byte_len_v(s),
    decreases s.len(),
{
    if text::trim_start_v(s) != s {
        let rest = s.drop_first();
        lemma_trim_bytes(rest);
        crate::text::lemma_encode_concat(seq![s[0]], rest);
        assert(seq![s[0]] + rest =~= s);
    }
}

/// The line that shows a line of the text, outside fenced code.
fn plain_line(raw: &str, theme: &Theme) -> (r: Line)
    ensures
        r.deep_view() == plain_line_v(raw@, *theme),
{
    let body = Style::with(theme.secondary);
    let trimmed = trim_start(raw);
    let head = heading(trimmed.as_str());
    if let Some(rest) = head {
        return Line::text(rest.as_str(), Style::with(theme.accent).bold());
    }
    let mut spans = no_spans();
    let quote = strip(trimmed.as_str(), "> ");
    if let Some(rest) = quote {
        push_styled(&mut spans, "┃ ", theme.dim());
        let more = inline(rest.as_str(), body.italic(), theme);
        push_spans(&mut spans, &more);
        assert(spans.deep_view() =~= seq![style::styled_v("┃ "@, style::fg_v(theme.tertiary))]
            + more.deep_view());
        return Line::from_spans(spans);
    }
    if let Some((indent, rest)) = bullet(raw) {
        push_raw(&mut spans, repeat(' ', indent).as_str());
        push_styled(&mut spans, "• ", Style::with(theme.accent));
        let more = inline(rest.as_str(), body, theme);
        push_spans(&mut spans, &more);
        assert(spans.deep_view() =~= seq![
            style::raw_v(text::repeat_v(' ', indent as nat)),
            style::styled_v("• "@, style::fg_v(theme.accent)),
        ] + more.deep_view());
        return Line::from_spans(spans);
    }
    Line::from_spans(inline(raw, body, theme))
}

/// Markdown as lines of styled text.
pub fn render(text: &str, theme: &Theme) -> (r: Vec<Line>)
    ensures
        r.deep_view() == render_v(text@, *theme),
{
    let ls = lines(text);
    let ghost all = text::lines_v(text@);
    let mut out = no_lines();
    let mut in_code: bool = false;
    let mut i: usize = 0;
    while i < ls.len()
        invariant
            i <= ls@.len(),
            all == ls.deep_view(),
            (out.deep_view(), in_code) == render_lines_v(all, *theme, i as nat),
        decreases ls@.len() - i,
    {
        assert(all[i as int] == ls@[i as int]@);
        let raw = ls[i].as_str();
        let trimmed = trim_start(raw);
        if starts_with(trimmed.as_str(), "```") {
            in_code = !in_code;
        } else if in_code {
            let mut s = "  ".to_owned();
            s.append(raw);
            push_line(
                &mut out,
                Line::text(s.as_str(), Style::with(theme.secondary).bg(theme.bg_selected)),
            );
        } else {
            push_line(&mut out, plain_line(raw, theme));
        }
        i = i + 1;
    }
    out
}

// ---- Laws ----

proof fn lemma_unmarked(cs: Seq<char>, i: int, buf: Seq<char>, base: Style, theme: Theme)
    requires
        0 <= i <= cs.len(),
        forall|j: int| 0 <= j < cs.len() ==> cs[j] != '`' && cs[j] != '*',
    ensures
        inline_from_v(cs, i, buf, base, theme) == flushed_v(buf + cs.skip(i), base),
    decreases cs.len() - i,
{
    if i < cs.len() {
        lemma_unmarked(cs, i + 1, buf.push(cs[i]), base, theme);
        assert(buf.push(cs[i]) + cs.skip(i + 1) =~= buf + cs.skip(i));
    } else {
        assert(buf + cs.skip(i) =~= buf);
    }
}

/// A text without markers is one span, as it stands.
pub proof fn law_unmarked_text_stays(text: Seq<char>, base: Style, theme: Theme)
    requires
        forall|j: int| 0 <= j < text.len() ==> text[j] != '`' && text[j] != '*',
    ensures
        inline_v(text, base, theme) == seq![style::styled_v(text, base)],
{
    lemma_unmarked(text, 0, Seq::empty(), base, theme);
    assert(Seq::<char>::empty() + text.skip(0) =~= text);
    assert(text.len() == 0 ==> text =~= Seq::empty());
}

/// A line of the text gives one line at most, and one exactly where it is no fence.
pub proof fn law_render_keeps_lines(ls: Seq<Seq<char>>, theme: Theme, k: nat)
    requires
        k <= ls.len(),
    ensures
        render_lines_v(ls, theme, k).0.len() <= k,
        (forall|j: int| 0 <= j < k ==> !"```"@.is_prefix_of(text::trim_start_v(#[trigger] ls[j])))
            ==> render_lines_v(ls, theme, k).0.len() == k && !render_lines_v(ls, theme, k).1,
    decreases k,
{
    if k > 0 {
        law_render_keeps_lines(ls, theme, (k - 1) as nat);
    }
}

} // verus!
