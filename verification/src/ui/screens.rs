//! What the screens tell.
use vstd::prelude::*;

use super::commits;
use super::diff_screen;
use super::layout;
use super::layout::{OpV, Rect};
use super::markdown;
use super::overview;
use super::overview::SharesV;
use super::widgets;
use crate::app::listing::OverviewV;
use crate::app::rows::{DiffV, RelatedV};
use crate::app::AppV;
use crate::git::model::{CommitV, FileV, Special};
use crate::style;
use crate::style::{SpanV, Style};
use crate::text;
use crate::theme::Theme;
use crate::util;

verus! {

broadcast use vstd::seq_lib::group_seq_properties;

// ---- The list of files ----

/// A size bar is measured by the largest file: no file has more than the whole, the largest has all
/// of it, and the whole is never nothing.
pub proof fn law_file_sizes(files: Seq<FileV>)
    ensures
        forall|i: int|
            0 <= i < files.len() ==> (#[trigger] files[i]).additions + files[i].deletions
                <= overview::largest_v(files),
        files.len() > 0 ==> exists|i: int|
            0 <= i < files.len() && (#[trigger] files[i]).additions + files[i].deletions
                == overview::largest_v(files),
        files.len() == 0 ==> overview::largest_v(files) == 0,
        overview::at_least_one(overview::largest_v(files)) >= 1,
        overview::largest_v(files) >= 1 ==> overview::at_least_one(overview::largest_v(files))
            == overview::largest_v(files),
    decreases files.len(),
{
    if files.len() > 0 {
        let init = files.drop_last();
        law_file_sizes(init);
        let n = files.len() - 1;
        assert forall|i: int| 0 <= i < files.len() implies (#[trigger] files[i]).additions
            + files[i].deletions <= overview::largest_v(files) by {
            if i < n {
                assert(init[i] == files[i]);
            }
        }
        if files[n].additions + files[n].deletions > overview::largest_v(init) {
            assert(files[n].additions + files[n].deletions == overview::largest_v(files));
        } else if init.len() > 0 {
            let i = choose|i: int|
                0 <= i < init.len() && (#[trigger] init[i]).additions + init[i].deletions
                    == overview::largest_v(init);
            assert(files[i] == init[i]);
        } else {
            assert(files[n].additions + files[n].deletions == 0);
        }
    }
}

proof fn lemma_earliest(times: Seq<i64>) -> (t: i64)
    requires
        times.len() > 0,
    ensures
        times.contains(t),
        forall|k: int| 0 <= k < times.len() ==> t <= #[trigger] times[k],
    decreases times.len(),
{
    let last = times.last();
    assert(times[times.len() - 1] == last);
    if times.len() == 1 {
        last
    } else {
        let init = times.drop_last();
        let t = lemma_earliest(init);
        let m = choose|m: int| 0 <= m < init.len() && init[m] == t;
        assert(times[m] == t);
        let r = if last < t {
            last
        } else {
            t
        };
        assert forall|k: int| 0 <= k < times.len() implies r <= #[trigger] times[k] by {
            if k < init.len() {
                assert(init[k] == times[k]);
            }
        }
        r
    }
}

/// The age that is told is that of the oldest commit.
pub proof fn law_oldest_commit(times: Seq<i64>)
    requires
        times.len() > 0,
    ensures
        times.contains(overview::oldest_v(times)),
        forall|k: int| 0 <= k < times.len() ==> overview::oldest_v(times) <= #[trigger] times[k],
{
    let t = lemma_earliest(times);
}

/// A file's row tells its status, its path, cut on the left to the room there is, and how many lines
/// were added and removed; its bar has the colour of what there is more of.
pub proof fn law_file_rows(f: FileV, viewed: bool, cells: nat, w: int, theme: Theme)
    ensures
        ({
            let s = overview::file_spans_v(f, viewed, cells, w, theme);
            let room = overview::path_width_v(w);
            &&& s[1] == widgets::dot_v(viewed, theme)
            &&& s[3] == style::styled_v(seq![f.status.letter_v()], theme.status_style_v(f.status))
            &&& s[5].content == text::pad_right_v(
                util::truncate_left_v(f.path, room as int),
                room,
            )
            &&& s[7].content == "+"@ + text::pad_left_v(text::decimal_v(f.additions as nat), 4)
            &&& s[7].style.fg == Some(theme.added)
            &&& s[9].content == "-"@ + text::pad_left_v(text::decimal_v(f.deletions as nat), 4)
            &&& s[9].style.fg == Some(theme.removed)
            &&& s[11].content == util::bar_v(cells, 12, '█', '░')
            &&& s[11].style.fg == Some(
                if f.deletions > f.additions {
                    theme.removed
                } else {
                    theme.added
                },
            )
            &&& room >= 8 && (w >= 50 ==> room == w - 42)
        }),
{
}

/// A note on a file says first that it was viewed, then that it is binary, and else what happened to
/// it, unless it was only modified.
pub proof fn law_file_notes(f: FileV, theme: Theme)
    ensures
        overview::annotation_v(f, true, theme) matches Some((t, _)) && t == "reviewed"@,
        f.special is Binary ==> (overview::annotation_v(f, false, theme) matches Some((t, _)) && t
            == "binary"@),
        !(f.special is Binary) ==> (overview::annotation_v(f, false, theme) is Some
            <==> f.status.annotation_v() is Some),
        !(f.special is Binary) ==> (overview::annotation_v(f, false, theme) matches Some((t, s))
            ==> f.status.annotation_v() == Some(t) && s.fg == Some(theme.status_color_v(f.status))),
{
}

/// The selected row stands out by its background, and a marked one by a bar at its start.
pub proof fn law_selected_and_marked(app: AppV, fi: usize, cells: nat, w: int)
    ensures
        overview::file_row_v(app, fi as int, true, cells, w).style.bg == Some(
            app.theme.bg_selected,
        ),
        overview::file_row_v(app, fi as int, false, cells, w).style.bg is None,
        app.ov.marked.contains(fi) ==> overview::file_row_v(
            app,
            fi as int,
            false,
            cells,
            w,
        ).spans[0].content == "▎"@,
        !app.ov.marked.contains(fi) ==> overview::file_row_v(
            app,
            fi as int,
            false,
            cells,
            w,
        ).spans[0].content == " "@,
{
}

/// The list shows the files from its offset on, in order and each in a row. Where some are left, the
/// last row says how many files it stands for.
pub proof fn law_list_rows(app: AppV, shares: SharesV, rows: int, w: int, r: int)
    requires
        rows > 0,
        0 <= app.ov.offset < app.ov.order.len(),
        0 <= r < app.ov.shown(rows),
    ensures
        ({
            let ov = app.ov;
            let shown = ov.shown(rows);
            let list = overview::list_rows_v(app, shares, rows, w);
            let left = ov.order.len() - (ov.offset + shown);
            let fi = ov.order[ov.offset + r];
            &&& list.len() == shown && shown <= rows
            &&& left > 0 ==> shown == rows
            &&& r < shown - 1 || left == 0 ==> list[r] == overview::file_row_v(
                app,
                fi as int,
                ov.offset + r == ov.selected,
                shares.files[fi as int] as nat,
                w,
            )
            &&& left > 0 && r == shown - 1 ==> list[r] == overview::more_v(
                (left + 1) as nat,
                w,
                app.theme,
            )
        }),
{
}

/// The head of the list says how many files it shows of how many that pass the filter, and by what
/// they are sorted; a filter is shown while there is one.
pub proof fn law_list_header(ov: OverviewV, theme: Theme)
    ensures
        ov.filtering ==> overview::filter_hint_v(ov, theme).content == "   /"@ + ov.filter + "_"@,
        !ov.filtering && ov.filter.len() > 0 ==> overview::filter_hint_v(ov, theme).content
            == "   /"@ + ov.filter,
        !ov.filtering && ov.filter.len() == 0 ==> overview::filter_hint_v(
            ov,
            theme,
        ).content.len() == 0,
{
}

// ---- The diff screen ----

/// A diff is not scrolled further than to show its last rows, and a shorter one not at all.
pub proof fn law_kept_in_view(d: DiffV, height: int)
    requires
        height > 0,
        d.scroll >= 0,
        d.total_rows >= 0,
    ensures
        ({
            let e = d.kept_in_view(height);
            &&& 0 <= e.scroll <= d.scroll
            &&& e.scroll + height <= d.total_rows || e.scroll == 0
            &&& d.scroll + height <= d.total_rows ==> e == d
            &&& d.total_rows > height && d.scroll + height > d.total_rows ==> e.scroll + height
                == d.total_rows
        }),
{
}

/// The body of the diff screen: the sizes of a binary file, a note where there is nothing to show,
/// else the rows.
pub proof fn law_diff_body(f: FileV, d: DiffV, area: Rect, theme: Theme)
    requires
        area.height > 0,
    ensures
        ({
            let (e, ops) = diff_screen::body_v(f, d, area, theme);
            &&& ops.len() == 1
            &&& e.viewport_rows == area.height
            &&& f.special matches Special::Binary { old_size, new_size } ==> ops[0]
                == diff_screen::notice_v(
                area,
                "Binary file changed ("@ + util::format_bytes_v(old_size as int) + " → "@
                    + util::format_bytes_v(new_size as int) + ")"@,
                theme,
            )
            &&& !(f.special is Binary) && d.rows.len() == 0 && f.old_path is Some ==> ops[0]
                == diff_screen::notice_v(area, "No content changes (file renamed)."@, theme)
            &&& !(f.special is Binary) && d.rows.len() == 0 && f.old_path is None ==> ops[0]
                == diff_screen::notice_v(area, "No changes."@, theme)
            &&& !(f.special is Binary) && d.rows.len() > 0 ==> ops[0] is Text && e
                == d.sized(area.height as int).kept_in_view(area.height as int)
        }),
{
}

/// The head of the diff screen names the file, with where it was before, counts its lines, and says
/// which of the listed files it is.
pub proof fn law_diff_header(f: FileV, viewed: bool, pos: nat, total: nat, theme: Theme)
    ensures
        ({
            let left = diff_screen::header_left_v(f, viewed, theme);
            let right = diff_screen::header_right_v(pos, total, theme);
            &&& left[1] == widgets::dot_v(viewed, theme)
            &&& left[3].content == seq![f.status.letter_v()]
            &&& f.old_path is None ==> left[5].content == f.path
            &&& f.old_path matches Some(o) ==> left[5].content == o + " → "@ + f.path
            &&& left[7].content == "+"@ + text::decimal_v(f.additions as nat)
            &&& left[9].content == "-"@ + text::decimal_v(f.deletions as nat)
            &&& right[0].content == "file "@ + text::decimal_v(pos) + " of "@ + text::decimal_v(
                total,
            )
        }),
{
}

/// A related file is told with what it does, one name, and how many more names there are.
pub proof fn law_related_lines(f: FileV, e: RelatedV, path_col: int, theme: Theme)
    ensures
        ({
            let s = diff_screen::related_line_v(f, e, path_col, theme).spans;
            &&& s[1].content == util::truncate_left_v(f.path, layout::less_v(path_col, 6))
            &&& s[3].content == e.verb.label_v() + " "@
            &&& s[4].content == e.sample
            &&& e.count <= 1 ==> s[5].content.len() == 0
            &&& e.count > 1 ==> s[5].content == " (+"@ + text::decimal_v((e.count - 1) as nat)
                + " more)"@
        }),
{
}

// ---- The list of commits ----

/// The commits that are not shown are counted: those that are and those that are not are all.
pub proof fn law_commit_lines(commits: Seq<CommitV>, area: Rect, theme: Theme, i: int)
    requires
        0 <= i < commits.len(),
    ensures
        ({
            let lines = commits::commits_lines_v(commits, area, theme);
            let rows = commits::max_rows_v(area);
            &&& rows >= 1
            &&& i < rows ==> lines[2 + i] == commits::commit_line_v(
                commits[i],
                commits::width_v(area),
                theme,
            )
            &&& commits.len() > rows ==> lines.len() == rows + 5 && lines[2 + rows]
                == style::text_line_v(
                "… and "@ + text::decimal_v((commits.len() - rows) as nat) + " more"@,
                style::fg_v(theme.tertiary),
            )
            &&& commits.len() <= rows ==> lines.len() == commits.len() + 4
        }),
{
}

// ---- Marked-up text ----

/// Nothing in a text marks it up.
pub open spec fn unmarked(s: Seq<char>) -> bool {
    forall|j: int| 0 <= j < s.len() ==> #[trigger] s[j] != '`' && s[j] != '*'
}

/// Unmarked text before `k` is taken in as it is.
proof fn lemma_plain_run(
    cs: Seq<char>,
    i: int,
    k: int,
    buf: Seq<char>,
    base: Style,
    theme: Theme,
)
    requires
        0 <= i <= k <= cs.len(),
        forall|j: int| i <= j < k ==> #[trigger] cs[j] != '`' && cs[j] != '*',
    ensures
        markdown::inline_from_v(cs, i, buf, base, theme) == markdown::inline_from_v(
            cs,
            k,
            buf + cs.subrange(i, k),
            base,
            theme,
        ),
    decreases k - i,
{
    if i < k {
        assert(markdown::mark_v(cs, i) == markdown::MarkV::Plain);
        lemma_plain_run(cs, i + 1, k, buf.push(cs[i]), base, theme);
        assert(buf.push(cs[i]) + cs.subrange(i + 1, k) =~= buf + cs.subrange(i, k));
    } else {
        assert(buf + cs.subrange(i, k) =~= buf);
    }
}

proof fn lemma_next_is(cs: Seq<char>, c: char, i: int, k: int)
    requires
        0 <= i <= k < cs.len(),
        cs[k] == c,
        forall|j: int| i <= j < k ==> #[trigger] cs[j] != c,
    ensures
        markdown::next_v(cs, c, i) == k,
    decreases k - i,
{
    if i < k {
        lemma_next_is(cs, c, i + 1, k);
    }
}

proof fn lemma_next_stars_is(cs: Seq<char>, i: int, k: int)
    requires
        0 <= i <= k,
        k + 1 < cs.len(),
        cs[k] == '*' && cs[k + 1] == '*',
        forall|j: int| i <= j < k ==> #[trigger] cs[j] != '*',
    ensures
        markdown::next_stars_v(cs, i) == k,
    decreases k - i,
{
    if i < k {
        lemma_next_stars_is(cs, i + 1, k);
    }
}

/// What stands between two backticks is code.
pub proof fn law_inline_code(a: Seq<char>, t: Seq<char>, b: Seq<char>, base: Style, theme: Theme)
    requires
        unmarked(a),
        !t.contains('`'),
        unmarked(b),
    ensures
        markdown::inline_v(a.push('`') + t + seq!['`'] + b, base, theme) == markdown::flushed_v(
            a,
            base,
        ).push(style::styled_v(t, base.with_bg_v(theme.bg_selected))) + markdown::flushed_v(
            b,
            base,
        ),
{
    let cs = a.push('`') + t + seq!['`'] + b;
    let i = a.len() as int;
    let k = i + 1 + t.len();
    lemma_plain_run(cs, 0, i, Seq::empty(), base, theme);
    assert(Seq::<char>::empty() + cs.subrange(0, i) =~= a);
    assert forall|j: int| i + 1 <= j < k implies #[trigger] cs[j] != '`' by {
        assert(cs[j] == t[j - i - 1]);
        assert(t.contains(t[j - i - 1]));
    }
    lemma_next_is(cs, '`', i + 1, k);
    assert(cs.subrange(i + 1, k) =~= t);
    let n = cs.len() as int;
    assert forall|j: int| k + 1 <= j < n implies #[trigger] cs[j] != '`' && cs[j] != '*' by {
        assert(cs[j] == b[j - k - 1]);
    }
    lemma_plain_run(cs, k + 1, n, Seq::empty(), base, theme);
    assert(Seq::<char>::empty() + cs.subrange(k + 1, n) =~= b);
}

/// What stands between two stars is italic, and between two pairs of stars bold.
pub proof fn law_inline_emphasis(
    a: Seq<char>,
    t: Seq<char>,
    b: Seq<char>,
    base: Style,
    theme: Theme,
)
    requires
        unmarked(a),
        unmarked(b),
        t.len() > 0,
        !t.contains('*'),
    ensures
        markdown::inline_v(a.push('*') + t + seq!['*'] + b, base, theme) == markdown::flushed_v(
            a,
            base,
        ).push(style::styled_v(t, base.with_italic_v())) + markdown::flushed_v(b, base),
        markdown::inline_v(a + seq!['*', '*'] + t + seq!['*', '*'] + b, base, theme)
            == markdown::flushed_v(a, base).push(style::styled_v(t, base.with_bold_v()))
            + markdown::flushed_v(b, base),
{
    lemma_italic(a, t, b, base, theme);
    lemma_bold(a, t, b, base, theme);
}

proof fn lemma_italic(a: Seq<char>, t: Seq<char>, b: Seq<char>, base: Style, theme: Theme)
    requires
        unmarked(a),
        unmarked(b),
        t.len() > 0,
        !t.contains('*'),
    ensures
        markdown::inline_v(a.push('*') + t + seq!['*'] + b, base, theme) == markdown::flushed_v(
            a,
            base,
        ).push(style::styled_v(t, base.with_italic_v())) + markdown::flushed_v(b, base),
{
    let cs = a.push('*') + t + seq!['*'] + b;
    let i = a.len() as int;
    let k = i + 1 + t.len();
    lemma_plain_run(cs, 0, i, Seq::empty(), base, theme);
    assert(Seq::<char>::empty() + cs.subrange(0, i) =~= a);
    assert forall|j: int| i + 1 <= j < k implies #[trigger] cs[j] != '*' by {
        assert(cs[j] == t[j - i - 1]);
        assert(t.contains(t[j - i - 1]));
    }
    lemma_next_is(cs, '*', i + 1, k);
    assert(cs[i] == '*' && cs[i + 1] != '*');
    assert(cs.subrange(i + 1, k) =~= t);
    let n = cs.len() as int;
    assert forall|j: int| k + 1 <= j < n implies #[trigger] cs[j] != '`' && cs[j] != '*' by {
        assert(cs[j] == b[j - k - 1]);
    }
    lemma_plain_run(cs, k + 1, n, Seq::empty(), base, theme);
    assert(Seq::<char>::empty() + cs.subrange(k + 1, n) =~= b);
}

proof fn lemma_bold(a: Seq<char>, t: Seq<char>, b: Seq<char>, base: Style, theme: Theme)
    requires
        unmarked(a),
        unmarked(b),
        t.len() > 0,
        !t.contains('*'),
    ensures
        markdown::inline_v(a + seq!['*', '*'] + t + seq!['*', '*'] + b, base, theme)
            == markdown::flushed_v(a, base).push(style::styled_v(t, base.with_bold_v()))
            + markdown::flushed_v(b, base),
{
    let cs = a + seq!['*', '*'] + t + seq!['*', '*'] + b;
    let i = a.len() as int;
    let k = i + 2 + t.len();
    lemma_plain_run(cs, 0, i, Seq::empty(), base, theme);
    assert(Seq::<char>::empty() + cs.subrange(0, i) =~= a);
    assert forall|j: int| i + 2 <= j < k implies #[trigger] cs[j] != '*' by {
        assert(cs[j] == t[j - i - 2]);
        assert(t.contains(t[j - i - 2]));
    }
    lemma_next_stars_is(cs, i + 2, k);
    assert(cs[i] == '*' && cs[i + 1] == '*');
    assert(cs.subrange(i + 2, k) =~= t);
    let n = cs.len() as int;
    assert forall|j: int| k + 2 <= j < n implies #[trigger] cs[j] != '`' && cs[j] != '*' by {
        assert(cs[j] == b[j - k - 2]);
    }
    lemma_plain_run(cs, k + 2, n, Seq::empty(), base, theme);
    assert(Seq::<char>::empty() + cs.subrange(k + 2, n) =~= b);
}

proof fn lemma_hashes(n: nat, rest: Seq<char>, i: int)
    requires
        0 <= i <= n,
        rest.len() == 0 || rest[0] != '#',
    ensures
        markdown::hashes_v(text::repeat_v('#', n) + rest, i) == n,
    decreases n - i,
{
    let s = text::repeat_v('#', n) + rest;
    if i < n {
        assert(s[i] == '#');
        lemma_hashes(n, rest, i + 1);
    } else if s.len() > n {
        assert(s[n as int] == rest[0]);
    }
}

/// One to six number signs and a space make a heading of what follows; more do not.
pub proof fn law_headings(n: nat, rest: Seq<char>)
    ensures
        1 <= n <= 6 ==> markdown::heading_v(text::repeat_v('#', n) + (seq![' '] + rest)) == Some(
            rest,
        ),
        n == 0 || n > 6 ==> markdown::heading_v(text::repeat_v('#', n) + (seq![' '] + rest)) is None,
{
    let tail = seq![' '] + rest;
    lemma_hashes(n, tail, 0);
    let s = text::repeat_v('#', n) + tail;
    assert(s.skip(n as int) =~= tail);
    reveal_strlit(" ");
    assert(" "@ =~= seq![' ']);
    assert(tail.subrange(0, 1) =~= " "@);
    assert(tail.skip(1) =~= rest);
}

/// Within a fence lines are shown as they are, set off by two spaces, and the lines of the fence
/// itself are not shown; outside they are rendered one by one.
pub proof fn law_fences(ls: Seq<Seq<char>>, theme: Theme, k: nat)
    requires
        k < ls.len(),
    ensures
        ({
            let (out, code) = markdown::render_lines_v(ls, theme, k);
            let (next, after) = markdown::render_lines_v(ls, theme, k + 1);
            let fence = "```"@.is_prefix_of(text::trim_start_v(ls[k as int]));
            &&& after == (if fence {
                !code
            } else {
                code
            })
            &&& fence ==> next == out
            &&& !fence ==> next.len() == out.len() + 1 && out == next.drop_last()
            &&& !fence && code ==> next.last() == style::text_line_v(
                "  "@ + ls[k as int],
                style::fg_v(theme.secondary).with_bg_v(theme.bg_selected),
            )
            &&& !fence && !code ==> next.last() == markdown::plain_line_v(ls[k as int], theme)
        }),
{
}

// ---- The head of the list ----

/// The statistics count the files, the lines over all of them, the commits and their authors.
pub proof fn law_statistics(cs: crate::git::model::ChangesetV, now: int, theme: Theme)
    ensures
        ({
            let s = overview::stats_line_v(cs, now, theme).spans;
            &&& s[1].content == util::plural_v(cs.files.len(), "file"@) + " changed"@
            &&& s[3].content == "+"@ + util::commas_v(
                crate::git::model::additions_v(cs.files) as nat,
            )
            &&& s[3].style.fg == Some(theme.added)
            &&& s[5].content == "-"@ + util::commas_v(
                crate::git::model::deletions_v(cs.files) as nat,
            )
            &&& s[5].style.fg == Some(theme.removed)
            &&& s[8].content == util::plural_v(cs.commits.len(), "commit"@)
            &&& s.len() == (if cs.commits.len() > 0 {
                13nat
            } else {
                11
            })
        }),
{
}

/// The progress line counts the files that were viewed, of all, and fills its bar by their share.
pub proof fn law_progress(viewed: nat, total: nat, shares: SharesV, theme: Theme)
    ensures
        ({
            let s = overview::reviewed_line_v(viewed, total, shares, theme).spans;
            &&& s[2].content == text::decimal_v(viewed) + "/"@ + text::decimal_v(total) + "  "@
            &&& s[3].content == util::bar_v(shares.reviewed, 30, '━', '░')
            &&& s[4].content == "  "@ + text::decimal_v(shares.percent) + "%"@
        }),
{
}

/// A group's row tells its name, how many files it has and how many lines were added and removed.
pub proof fn law_group_rows(g: crate::group::GroupV, cells: nat, name_w: nat, theme: Theme)
    ensures
        ({
            let s = overview::group_row_v(g, cells, name_w, theme).spans;
            &&& s[1].content == text::pad_right_v(
                util::truncate_right_v(g.name, name_w as int),
                name_w,
            )
            &&& s[3].content == text::pad_left_v(text::decimal_v(g.file_count as nat), 3)
                + " files"@
            &&& s[5].content == "+"@ + text::pad_right_v(util::commas_v(g.additions as nat), 5)
            &&& s[5].style.fg == Some(theme.added)
            &&& s[6].content == "-"@ + text::pad_right_v(util::commas_v(g.deletions as nat), 5)
            &&& s[6].style.fg == Some(theme.removed)
            &&& s[8].content == util::bar_v(cells, 24, '█', '░')
        }),
{
}

/// The groups are told in order, each with its own share, under a title that says what they are;
/// where files are in several, a note says how they are counted.
pub proof fn law_group_section(app: AppV, shares: SharesV, w: int, i: int)
    requires
        0 <= i < app.grouping.groups.len(),
    ensures
        ({
            let lines = overview::group_section_v(app, shares, w);
            let n = app.grouping.groups.len();
            &&& lines[0].spans[1].content == (if app.grouping.from_config {
                "Changes by group"@
            } else {
                "Changes by directory"@
            })
            &&& lines[2 + i] == overview::group_row_v(
                app.grouping.groups[i],
                shares.groups[i] as nat,
                overview::name_width_v(app.grouping.groups, w),
                app.theme,
            )
            &&& lines.len() == n + 2 + (if app.grouping.multi_group {
                1nat
            } else {
                0
            })
        }),
{
}

// ---- Panels ----

/// A line of a panel takes as many rows as are needed for its cells, and an empty one a row.
pub proof fn law_panel_rows(line: style::TextV, width: int)
    requires
        width > 0,
        0 <= style::spans_width_v(line.spans) <= usize::MAX,
    ensures
        ({
            let w = style::spans_width_v(line.spans);
            let rows = super::explain::line_rows_v(line, width);
            &&& rows >= 1
            &&& rows * width >= w
            &&& w > 0 ==> (rows - 1) * width < w
        }),
{
    let w = style::spans_width_v(line.spans);
    if w > 0 {
        let rows = (w + width - 1) / width;
        vstd::arithmetic::div_mod::lemma_fundamental_div_mod(w + width - 1, width);
        vstd::arithmetic::div_mod::lemma_mod_pos_bound(w + width - 1, width);
        assert(width * rows == rows * width) by (nonlinear_arith);
        assert((rows - 1) * width == rows * width - width) by (nonlinear_arith);
        assert(rows >= 1) by (nonlinear_arith)
            requires
                rows * width >= w,
                w > 0,
                width > 0,
        ;
    } else {
        assert(1 * width >= 0) by (nonlinear_arith)
            requires
                width > 0,
        ;
    }
}

/// An answer is not scrolled past its end, and an error looks like one.
pub proof fn law_answers(ans: crate::explain::AnswerV, theme: Theme, a: super::explain::PanelAreas)
    requires
        ans.scroll >= 0,
    ensures
        ({
            let kept = ans.kept_in_view(theme, a.popup);
            let max = super::explain::max_scroll_v(markdown::render_v(ans.text, theme), a.popup);
            &&& kept.scroll <= max || kept.scroll == 0
            &&& ans.scroll <= max ==> kept == ans
            &&& super::explain::answer_v(ans, theme, a)[0] == (OpV::Frame {
                area: a.popup,
                title: if ans.is_error {
                    " Explain — error "@
                } else {
                    " Explanation "@
                },
                title_style: style::fg_v(
                    if ans.is_error {
                        theme.removed
                    } else {
                        theme.accent
                    },
                ).with_bold_v(),
                border_style: style::fg_v(theme.chrome),
            })
        }),
{
}

/// What stands left and right on a line has as much room between as is left of the width.
pub proof fn law_justified(left: Seq<SpanV>, right: Seq<SpanV>, width: int)
    ensures
        ({
            let t = widgets::justified_v(left, right, width);
            let used = style::spans_width_v(left) + style::spans_width_v(right);
            &&& left.is_prefix_of(t.spans)
            &&& right.is_suffix_of(t.spans)
            &&& t.spans.len() == left.len() + 1 + right.len()
            &&& used < width ==> t.spans[left.len() as int].content == text::repeat_v(
                ' ',
                (width - used) as nat,
            )
            &&& used >= width ==> t.spans[left.len() as int].content.len() == 0
        }),
{
    let t = widgets::justified_v(left, right, width);
    let n = t.spans.len() as int;
    assert(t.spans.subrange(0, left.len() as int) =~= left);
    assert(t.spans.subrange(n - right.len(), n) =~= right);
}

/// The last line of a screen is the message of the last key where there is one.
pub proof fn law_footer(hints: Seq<(Seq<char>, Seq<char>)>, msg: Seq<char>, theme: Theme)
    ensures
        widgets::footer_v(hints, Some(msg), theme) == style::text_line_v(
            " "@ + msg,
            style::fg_v(theme.accent),
        ),
{
}

// ---- Small things ----

/// A filled dot stands for a file that was viewed, an empty one for one that was not.
pub proof fn law_dots(theme: Theme)
    ensures
        widgets::dot_v(true, theme) == style::styled_v("●"@, style::fg_v(theme.tertiary)),
        widgets::dot_v(false, theme) == style::styled_v("○"@, style::fg_v(theme.added)),
{
}

/// The related files have a heading above and a blank row below.
pub proof fn law_related_height(files: Seq<FileV>, related: Seq<RelatedV>, w: int, theme: Theme)
    requires
        related.len() <= 0xfff0,
    ensures
        related.len() > 0 ==> super::related_height_v(related.len())
            == diff_screen::related_lines_v(files, related, w, theme).len() + 1,
        related.len() == 0 ==> super::related_height_v(related.len()) == 0,
{
}

/// The list of commits leaves six rows of the screen to its frame and its other lines, and shows the
/// first eight digits of each id.
pub proof fn law_commit_rows(area: Rect, id: Seq<char>)
    ensures
        area.height >= 7 ==> commits::max_rows_v(area) == area.height - 6,
        area.height < 7 ==> commits::max_rows_v(area) == 1,
        commits::short_v(id).is_prefix_of(id),
        id.len() >= 8 ==> commits::short_v(id).len() == 8,
        id.len() < 8 ==> commits::short_v(id) == id,
{
    assert(id.take(id.len() as int) =~= id);
    let s = commits::short_v(id);
    assert(id.subrange(0, s.len() as int) =~= s);
}

/// The help lists the keys of each screen, each with what it does.
pub proof fn law_help(name: Seq<char>, theme: Theme, i: int)
    ensures
        ({
            let g = super::help::global_keys_v(name);
            let o = super::help::overview_keys_v();
            let d = super::help::diff_keys_v();
            let lines = super::help::help_lines_v(name, theme);
            &&& g.map_values(|k: (Seq<char>, Seq<char>)| k.0) == seq!["q"@, "?"@, "e"@, "esc"@]
            &&& o.map_values(|k: (Seq<char>, Seq<char>)| k.0) == seq![
                "j / k"@,
                "ctrl-d / ctrl-u"@,
                "gg / G"@,
                "enter"@,
                "v"@,
                "space"@,
                "/"@,
                "s"@,
                "c"@,
            ]
            &&& d.map_values(|k: (Seq<char>, Seq<char>)| k.0) == seq![
                "j / k"@,
                "ctrl-d / ctrl-u"@,
                "gg / G"@,
                "]h / [h"@,
                "]f / [f"@,
                "]r / [r"@,
                "o"@,
                "v"@,
                "s"@,
                "w"@,
                "z / Z"@,
                "zR / zM"@,
                "/ n N"@,
            ]
            &&& lines.len() == g.len() + o.len() + d.len() + 7
            &&& 0 <= i < g.len() ==> lines[1 + i] == super::help::key_line_v(g[i], theme)
            &&& 0 <= i < o.len() ==> lines[3 + g.len() + i] == super::help::key_line_v(o[i], theme)
            &&& 0 <= i < d.len() ==> lines[5 + g.len() + o.len() + i] == super::help::key_line_v(
                d[i],
                theme,
            )
        }),
{
}

// ---- Wrapped lines ----

proof fn lemma_wrap_full(cells: Seq<(char, Style)>, max: int, k: nat, i: int)
    requires
        k <= cells.len(),
        0 <= i,
    ensures
        ({
            let w = super::cells::wrap_v(cells, Some(max), k);
            &&& w.col == super::cells::cells_width_v(w.cur)
            &&& w.cur.len() == 0 ==> w.lines.len() == 0
            &&& i + 1 < w.lines.len() ==> w.lines[i + 1].len() > 0 && super::cells::cells_width_v(
                w.lines[i],
            ) + crate::width::char_width_v(w.lines[i + 1][0].0) > max
            &&& i + 1 == w.lines.len() ==> super::cells::cells_width_v(w.lines[i])
                + crate::width::char_width_v(w.cur[0].0) > max
        }),
    decreases k,
{
    if k > 0 {
        lemma_wrap_full(cells, max, (k - 1) as nat, i);
        let b = super::cells::wrap_v(cells, Some(max), (k - 1) as nat);
        let w = super::cells::wrap_v(cells, Some(max), k);
        let c = cells[k - 1];
        let cw = crate::width::char_width_v(c.0);
        if b.col + cw > max && b.cur.len() > 0 {
            reveal_with_fuel(super::cells::cells_width_v, 2);
            assert(seq![c].drop_last() =~= Seq::empty());
            assert(w.cur == seq![c]);
            assert(w.lines == b.lines.push(b.cur));
            if i < b.lines.len() {
                assert(w.lines[i] == b.lines[i]);
                if i + 1 < b.lines.len() {
                    assert(w.lines[i + 1] == b.lines[i + 1]);
                } else {
                    assert(w.lines[i + 1] == b.cur);
                }
            } else if i == b.lines.len() {
                assert(w.lines[i] == b.cur);
            }
        } else {
            assert(w.cur == b.cur.push(c));
            assert(w.cur.drop_last() =~= b.cur);
            assert(w.lines == b.lines);
        }
    }
}

/// A line is wrapped only where its next character would not have fit.
pub proof fn law_wrapped_lines_are_full(cells: Seq<(char, Style)>, max: int, i: int)
    requires
        0 <= i,
        i + 1 < super::cells::wrapped_v(cells, Some(max)).len(),
    ensures
        ({
            let lines = super::cells::wrapped_v(cells, Some(max));
            &&& lines[i + 1].len() > 0
            &&& super::cells::cells_width_v(lines[i]) + crate::width::char_width_v(
                lines[i + 1][0].0,
            ) > max
        }),
{
    lemma_wrap_full(cells, max, cells.len(), i);
    let w = super::cells::wrap_v(cells, Some(max), cells.len());
    let lines = super::cells::wrapped_v(cells, Some(max));
    assert(lines[i] == w.lines[i]);
    if i + 1 < w.lines.len() {
        assert(lines[i + 1] == w.lines[i + 1]);
    } else {
        assert(lines[i + 1] == w.cur);
    }
}

/// A column of two is its number, its mark and three spaces, and else text: what is in front of the
/// text and the text together are as wide as the column.
pub proof fn law_half_width(
    d: DiffV,
    idx: int,
    look: super::diffview::Look,
    k: int,
    gutter: nat,
    width: int,
    theme: Theme,
)
    requires
        k > 0,
        width > gutter + 4,
    ensures
        ({
            let s = super::diffview::half_prefix_v(d, idx, look, k, gutter, theme);
            &&& s.len() == 5
            &&& s[0].content.len() + s[1].content.len() + s[2].content.len() + s[3].content.len()
                + s[4].content.len() + super::diffview::content_width_v(width, gutter as int)
                == width
        }),
{
    reveal_strlit(" ");
}

} // verus!
