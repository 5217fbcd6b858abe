//! The screen of the overview: header, numbers, groups and the list of files.
use vstd::prelude::*;
use vstd::string::*;

use crate::app::actions;
use crate::app::listing;
use crate::group;
use crate::style;
use crate::text;
use crate::ui::layout;
use crate::ui::widgets;
use crate::util;
use crate::app::{App, AppV};
use crate::app::listing::OverviewV;
use crate::git::model;
use crate::git::model::{ChangesetV, FileChange, FileV};
use crate::group::{Group, GroupV, max_churn};
use crate::style::{
    Line, Span, SpanV, Style, TextV, no_lines, no_spans, push_line, push_raw, push_styled,
};
use crate::text::{char_text, chars_of, decimal_usize, pad_left, pad_right, repeat};
use crate::theme::Theme;
use crate::ui::layout::{Op, OpV, Rect, append_ops, no_ops, push_op};
use crate::ui::widgets::{footer, justified, one_line, pad_to, push_dot, push_lines, rule};
use crate::util::{bar, commas, plural, relative_age, truncate_left, truncate_right};

verus! {

broadcast use vstd::seq_lib::group_seq_properties;

/// The cells of the bar of viewed files.
pub const REVIEWED_BAR_W: usize = 30;

/// The cells of the bar of a group.
pub const GROUP_BAR_W: usize = 24;

/// The cells of the bar of a file.
pub const SIZE_BAR_W: usize = 12;

/// How full the bars are, in cells, and the percentage of viewed files: the rounded shares, which
/// the caller computes.
pub struct Shares {
    pub reviewed: usize,
    pub percent: u32,
    /// For each group, its lines among those of the largest.
    pub groups: Vec<usize>,
    /// For each file, its lines among those of the largest.
    pub files: Vec<usize>,
}

/// The mathematical value of [`Shares`].
pub ghost struct SharesV {
    pub reviewed: nat,
    pub percent: nat,
    pub groups: Seq<usize>,
    pub files: Seq<usize>,
}

impl DeepView for Shares {
    type V = SharesV;

    open spec fn deep_view(&self) -> SharesV {
        SharesV {
            reviewed: self.reviewed as nat,
            percent: self.percent as nat,
            groups: self.groups@,
            files: self.files@,
        }
    }
}

/// There is a share for each group and for each file.
pub open spec fn shares_fit(app: AppV, shares: SharesV) -> bool {
    shares.groups.len() == app.grouping.groups.len() && shares.files.len()
        == app.changeset.files.len()
}

/// What the bars stand for, each as a part of a whole that is not zero.
pub struct Fractions {
    /// The viewed files among all.
    pub reviewed: (usize, usize),
    /// For each group, its lines among those of the largest.
    pub groups: Vec<(usize, usize)>,
    /// For each file, its lines among those of the largest.
    pub files: Vec<(usize, usize)>,
}

/// A number, or one where it is zero.
pub open spec fn at_least_one(n: int) -> int {
    if n > 1 {
        n
    } else {
        1
    }
}

/// The changed lines of the file that has most; zero where there is no file.
pub open spec fn largest_v(files: Seq<FileV>) -> int
    decreases files.len(),
{
    if files.len() == 0 {
        0
    } else {
        let m = largest_v(files.drop_last());
        let n = files.last().additions + files.last().deletions;
        if n > m {
            n
        } else {
            m
        }
    }
}

/// The lines of groups among those of the largest.
pub open spec fn group_parts_v(groups: Seq<GroupV>) -> Seq<(usize, usize)> {
    let whole = at_least_one(group::max_churn_v(groups)) as usize;
    groups.map_values(|g: GroupV| (g.churn() as usize, whole))
}

/// The lines of files among those of the largest.
pub open spec fn file_parts_v(files: Seq<FileV>) -> Seq<(usize, usize)> {
    let whole = at_least_one(largest_v(files)) as usize;
    files.map_values(|f: FileV| ((f.additions + f.deletions) as usize, whole))
}

/// The changed lines of the file that has most.
fn largest(app: &App) -> (r: usize)
    requires
        app.wf(),
    ensures
        r == largest_v(app@.changeset.files),
{
    let ghost fs = app@.changeset.files;
    proof {
        crate::app::lemma_each_fits(fs);
    }
    let mut most: usize = 0;
    let mut i: usize = 0;
    while i < app.changeset.files.len()
        invariant
            i <= app.changeset.files@.len(),
            fs == app@.changeset.files,
            listing::each_fits(fs),
            most == largest_v(fs.take(i as int)),
        decreases app.changeset.files@.len() - i,
    {
        assert(fs.take(i + 1).drop_last() =~= fs.take(i as int));
        let f = &app.changeset.files[i];
        assert(fs[i as int] == f.deep_view());
        let n: usize = f.additions + f.deletions;
        if n > most {
            most = n;
        }
        i = i + 1;
    }
    assert(fs.take(fs.len() as int) =~= fs);
    most
}

/// What the bars of the overview stand for.
pub fn fractions(app: &App) -> (r: Fractions)
    requires
        app.wf(),
    ensures
        r.reviewed.0 == actions::viewed_count_v(app@.changeset.files, app@.viewed.set),
        r.reviewed.1 == at_least_one(app@.changeset.files.len() as int),
        r.groups@ == group_parts_v(app@.grouping.groups),
        r.files@ == file_parts_v(app@.changeset.files),
{
    let ghost gs = app@.grouping.groups;
    let ghost fs = app@.changeset.files;
    proof {
        crate::app::lemma_each_fits(fs);
    }
    let total: usize = app.changeset.files.len();
    let most: usize = max_churn(&app.grouping.groups);
    let whole: usize = if most > 1 {
        most
    } else {
        1
    };
    let mut groups: Vec<(usize, usize)> = Vec::new();
    let mut i: usize = 0;
    while i < app.grouping.groups.len()
        invariant
            i <= app.grouping.groups@.len(),
            gs == app@.grouping.groups,
            group::churns_fit(gs),
            whole == at_least_one(group::max_churn_v(gs)),
            groups@ =~= group_parts_v(gs).take(i as int),
        decreases app.grouping.groups@.len() - i,
    {
        assert(gs[i as int] == app.grouping.groups@[i as int].deep_view());
        groups.push((app.grouping.groups[i].churn(), whole));
        i = i + 1;
    }
    let most: usize = largest(app);
    let whole: usize = if most > 1 {
        most
    } else {
        1
    };
    let mut files: Vec<(usize, usize)> = Vec::new();
    let mut i: usize = 0;
    while i < app.changeset.files.len()
        invariant
            i <= app.changeset.files@.len(),
            fs == app@.changeset.files,
            listing::each_fits(fs),
            whole == at_least_one(largest_v(fs)),
            files@ =~= file_parts_v(fs).take(i as int),
        decreases app.changeset.files@.len() - i,
    {
        let f = &app.changeset.files[i];
        assert(fs[i as int] == f.deep_view());
        files.push((f.additions + f.deletions, whole));
        i = i + 1;
    }
    let whole: usize = if total > 1 {
        total
    } else {
        1
    };
    Fractions { reviewed: (app.viewed_count(), whole), groups, files }
}

// ---- Numbers ----

/// The least of some times.
pub open spec fn oldest_v(times: Seq<i64>) -> i64 {
    choose|t: i64|
        times.contains(t) && (forall|k: int|
            0 <= k < times.len() ==> t <= #[trigger] times[k])
}

/// The numbers of a changeset: files, lines, commits, authors, and the age of the oldest commit.
pub open spec fn stats_line_v(cs: ChangesetV, now: int, theme: Theme) -> TextV {
    let dim = style::fg_v(theme.tertiary);
    let spans = seq![
        style::raw_v("  "@),
        style::styled_v(util::plural_v(cs.files.len(), "file"@) + " changed"@, style::bold_v()),
        style::raw_v("   "@),
        style::styled_v("+"@ + util::commas_v(model::additions_v(cs.files) as nat), style::fg_v(theme.added)),
        style::raw_v(" / "@),
        style::styled_v("-"@ + util::commas_v(model::deletions_v(cs.files) as nat), style::fg_v(theme.removed)),
        style::styled_v(" lines"@, dim),
        style::raw_v("   "@),
        style::styled_v(util::plural_v(cs.commits.len(), "commit"@), dim),
        style::raw_v("   "@),
        style::styled_v(util::plural_v(model::authors_v(cs.commits).to_set().len(), "author"@), dim),
    ];
    style::line_v(
        if cs.commits.len() > 0 {
            spans.push(style::raw_v("   "@)).push(
                style::styled_v(util::relative_age_v(oldest_v(model::times_v(cs.commits)) as int, now), dim),
            )
        } else {
            spans
        },
    )
}

/// How many files are viewed.
pub open spec fn reviewed_line_v(viewed: nat, total: nat, shares: SharesV, theme: Theme) -> TextV {
    let dim = style::fg_v(theme.tertiary);
    style::line_v(
        seq![
            style::raw_v("  "@),
            style::styled_v("Reviewed  "@, dim),
            style::styled_v(text::decimal_v(viewed) + "/"@ + text::decimal_v(total) + "  "@, style::bold_v()),
            style::styled_v(util::bar_v(shares.reviewed, REVIEWED_BAR_W as nat, '━', '░'), style::fg_v(theme.added)),
            style::styled_v("  "@ + text::decimal_v(shares.percent) + "%"@, dim),
        ],
    )
}

/// The numbers of the changeset.
fn stats_line(app: &App, now: i64) -> (r: Line)
    requires
        app.wf(),
    ensures
        r.deep_view() == stats_line_v(app@.changeset, now as int, app@.theme),
{
    let cs = &app.changeset;
    let theme = &app.theme;
    let ghost files = app@.changeset.files;
    proof {
        model::lemma_totals_prefix(files, files.len() as int);
        assert(files.take(files.len() as int) =~= files);
    }
    let mut count = plural(cs.files.len(), "file");
    count.append(" changed");
    let mut plus = "+".to_owned();
    plus.append(commas(cs.total_additions()).as_str());
    let mut minus = "-".to_owned();
    minus.append(commas(cs.total_deletions()).as_str());
    let mut spans = no_spans();
    push_raw(&mut spans, "  ");
    push_styled(&mut spans, count.as_str(), Style::plain().bold());
    push_raw(&mut spans, "   ");
    push_styled(&mut spans, plus.as_str(), theme.added_style());
    push_raw(&mut spans, " / ");
    push_styled(&mut spans, minus.as_str(), theme.removed_style());
    push_styled(&mut spans, " lines", theme.dim());
    push_raw(&mut spans, "   ");
    push_styled(&mut spans, plural(cs.commits.len(), "commit").as_str(), theme.dim());
    push_raw(&mut spans, "   ");
    push_styled(&mut spans, plural(cs.author_count(), "author").as_str(), theme.dim());
    if let Some(oldest) = cs.oldest_commit_secs() {
        proof {
            let times = model::times_v(app@.changeset.commits);
            let t = oldest_v(times);
            assert(times.contains(t) && (forall|k: int|
                0 <= k < times.len() ==> t <= #[trigger] times[k]));
            let i = choose|i: int| 0 <= i < times.len() && times[i] == t;
            let j = choose|j: int| 0 <= j < times.len() && times[j] == oldest;
            assert(times[i] >= oldest && times[j] >= t);
        }
        push_raw(&mut spans, "   ");
        push_styled(&mut spans, relative_age(oldest, now).as_str(), theme.dim());
    }
    assert(spans.deep_view() =~= stats_line_v(app@.changeset, now as int, *theme).spans);
    Line::from_spans(spans)
}

/// How many files are viewed.
fn reviewed_line(app: &App, shares: &Shares) -> (r: Line)
    ensures
        r.deep_view() == reviewed_line_v(
            actions::viewed_count_v(app@.changeset.files, app@.viewed.set),
            app@.changeset.files.len(),
            shares.deep_view(),
            app@.theme,
        ),
{
    let theme = &app.theme;
    let total: usize = app.changeset.files.len();
    let viewed: usize = app.viewed_count();
    let mut count = decimal_usize(viewed);
    count.append("/");
    count.append(decimal_usize(total).as_str());
    count.append("  ");
    let mut percent = "  ".to_owned();
    percent.append(crate::text::decimal(shares.percent as u64).as_str());
    percent.append("%");
    let mut spans = no_spans();
    push_raw(&mut spans, "  ");
    push_styled(&mut spans, "Reviewed  ", theme.dim());
    push_styled(&mut spans, count.as_str(), Style::plain().bold());
    push_styled(
        &mut spans,
        bar(shares.reviewed, REVIEWED_BAR_W, '━', '░').as_str(),
        theme.added_style(),
    );
    push_styled(&mut spans, percent.as_str(), theme.dim());
    assert(spans.deep_view() =~= reviewed_line_v(
        viewed as nat,
        total as nat,
        shares.deep_view(),
        *theme,
    ).spans);
    Line::from_spans(spans)
}

// ---- Groups ----

/// A group: its name, its files and lines, and a bar.
pub open spec fn group_row_v(g: GroupV, cells: nat, name_w: nat, theme: Theme) -> TextV {
    style::line_v(
        seq![
            style::raw_v("  "@),
            style::raw_v(text::pad_right_v(util::truncate_right_v(g.name, name_w as int), name_w)),
            style::raw_v("  "@),
            style::styled_v(
                text::pad_left_v(text::decimal_v(g.file_count as nat), 3) + " files"@,
                style::fg_v(theme.tertiary),
            ),
            style::raw_v("   "@),
            style::styled_v("+"@ + text::pad_right_v(util::commas_v(g.additions as nat), 5), style::fg_v(theme.added)),
            style::styled_v("-"@ + text::pad_right_v(util::commas_v(g.deletions as nat), 5), style::fg_v(theme.removed)),
            style::raw_v(" "@),
            style::styled_v(util::bar_v(cells, GROUP_BAR_W as nat, '█', '░'), style::fg_v(theme.accent)),
        ],
    )
}

/// The length of the longest name.
pub open spec fn longest_name_v(groups: Seq<GroupV>) -> nat
    decreases groups.len(),
{
    if groups.len() == 0 {
        0
    } else {
        let before = longest_name_v(groups.drop_last());
        if groups.last().name.len() > before {
            groups.last().name.len()
        } else {
            before
        }
    }
}

/// The columns that names of groups get.
pub open spec fn name_width_v(groups: Seq<GroupV>, w: int) -> nat {
    let most = layout::less_v(w, 40);
    util::clamp_v(
        longest_name_v(groups) as int,
        8,
        if most > 8 {
            most
        } else {
            8
        },
    ) as nat
}

/// The groups, under a title.
pub open spec fn group_section_v(app: AppV, shares: SharesV, w: int) -> Seq<TextV> {
    let gs = app.grouping.groups;
    let theme = app.theme;
    let name_w = name_width_v(gs, w);
    let head = seq![
        style::line_v(
            seq![
                style::raw_v("  "@),
                style::styled_v(
                    if app.grouping.from_config {
                        "Changes by group"@
                    } else {
                        "Changes by directory"@
                    },
                    style::bold_v(),
                ),
            ],
        ),
        style::blank_v(),
    ];
    let rows = Seq::new(
        gs.len(),
        |i: int| group_row_v(gs[i], shares.groups[i] as nat, name_w, theme),
    );
    let note = if app.grouping.multi_group {
        seq![
            style::text_line_v(
                "  † files in multiple groups are counted once in totals"@,
                style::fg_v(theme.tertiary),
            ),
        ]
    } else {
        Seq::empty()
    };
    head + rows + note
}

/// A group.
fn group_row(g: &Group, cells: usize, name_w: usize, theme: &Theme) -> (r: Line)
    ensures
        r.deep_view() == group_row_v(g.deep_view(), cells as nat, name_w as nat, *theme),
{
    let name = truncate_right(g.name.as_str(), name_w);
    let mut files = pad_left(decimal_usize(g.file_count).as_str(), 3);
    files.append(" files");
    let mut plus = "+".to_owned();
    plus.append(pad_right(commas(g.additions).as_str(), 5).as_str());
    let mut minus = "-".to_owned();
    minus.append(pad_right(commas(g.deletions).as_str(), 5).as_str());
    let mut spans = no_spans();
    push_raw(&mut spans, "  ");
    push_raw(&mut spans, pad_right(name.as_str(), name_w).as_str());
    push_raw(&mut spans, "  ");
    push_styled(&mut spans, files.as_str(), theme.dim());
    push_raw(&mut spans, "   ");
    push_styled(&mut spans, plus.as_str(), theme.added_style());
    push_styled(&mut spans, minus.as_str(), theme.removed_style());
    push_raw(&mut spans, " ");
    push_styled(
        &mut spans,
        bar(cells, GROUP_BAR_W, '█', '░').as_str(),
        Style::with(theme.accent),
    );
    assert(spans.deep_view() =~= group_row_v(
        g.deep_view(),
        cells as nat,
        name_w as nat,
        *theme,
    ).spans);
    Line::from_spans(spans)
}

/// The columns that names of groups get.
fn name_width(groups: &Vec<Group>, w: u16) -> (r: usize)
    ensures
        r == name_width_v(groups.deep_view(), w as int),
{
    let ghost gs = groups.deep_view();
    let mut longest: usize = 0;
    let mut i: usize = 0;
    assert(gs.take(0) =~= Seq::empty());
    while i < groups.len()
        invariant
            i <= groups@.len(),
            gs == groups.deep_view(),
            longest == longest_name_v(gs.take(i as int)),
        decreases groups@.len() - i,
    {
        assert(gs[i as int] == groups@[i as int].deep_view());
        assert(gs.take(i + 1).drop_last() =~= gs.take(i as int));
        let n: usize = chars_of(groups[i].name.as_str()).len();
        if n > longest {
            longest = n;
        }
        i = i + 1;
    }
    assert(gs.take(gs.len() as int) =~= gs);
    let wide: usize = (w as usize).saturating_sub(40);
    let most: usize = if wide > 8 {
        wide
    } else {
        8
    };
    if longest < 8 {
        8
    } else if longest > most {
        most
    } else {
        longest
    }
}

/// The groups, under a title.
fn group_section(app: &App, shares: &Shares, w: u16) -> (r: Vec<Line>)
    requires
        shares_fit(app@, shares.deep_view()),
    ensures
        r.deep_view() == group_section_v(app@, shares.deep_view(), w as int),
{
    let theme = &app.theme;
    let groups = &app.grouping.groups;
    let ghost gs = app@.grouping.groups;
    let title: &'static str = if app.using_config_groups() {
        "Changes by group"
    } else {
        "Changes by directory"
    };
    let mut head = no_spans();
    push_raw(&mut head, "  ");
    push_styled(&mut head, title, Style::plain().bold());
    assert(head.deep_view() =~= seq![style::raw_v("  "@), style::styled_v(title@, style::bold_v())]);
    let mut lines = no_lines();
    push_line(&mut lines, Line::from_spans(head));
    push_line(&mut lines, Line::blank());
    let ghost first = lines.deep_view();
    let name_w: usize = name_width(groups, w);
    let ghost rows = Seq::new(
        gs.len(),
        |i: int| group_row_v(gs[i], shares.groups@[i] as nat, name_w as nat, *theme),
    );
    let mut i: usize = 0;
    while i < groups.len()
        invariant
            i <= groups@.len() == shares.groups@.len(),
            gs == groups.deep_view(),
            rows == Seq::new(
                gs.len(),
                |i: int| group_row_v(gs[i], shares.groups@[i] as nat, name_w as nat, *theme),
            ),
            lines.deep_view() =~= first + rows.take(i as int),
        decreases groups@.len() - i,
    {
        assert(gs[i as int] == groups@[i as int].deep_view());
        push_line(&mut lines, group_row(&groups[i], shares.groups[i], name_w, theme));
        i = i + 1;
    }
    if app.multi_group_overlap() {
        push_line(
            &mut lines,
            Line::text("  † files in multiple groups are counted once in totals", theme.dim()),
        );
    }
    assert(lines.deep_view() =~= group_section_v(app@, shares.deep_view(), w as int));
    lines
}

// ---- Files ----

/// What is said of a file at the end of its row: that it is viewed, else that it is binary, else
/// what became of it.
pub open spec fn annotation_v(f: FileV, viewed: bool, theme: Theme) -> Option<(Seq<char>, Style)> {
    let dim = style::fg_v(theme.tertiary);
    if viewed {
        Some(("reviewed"@, dim))
    } else if f.special is Binary {
        Some(("binary"@, dim))
    } else {
        match f.status.annotation_v() {
            Some(a) => Some((a, style::fg_v(theme.status_color_v(f.status)))),
            None => None,
        }
    }
}

/// The columns that the path of a file gets.
pub open spec fn path_width_v(w: int) -> nat {
    let rest = layout::less_v(w, 42);
    (if rest > 8 {
        rest
    } else {
        8
    }) as nat
}

/// The parts of a file's row.
pub open spec fn file_spans_v(f: FileV, viewed: bool, cells: nat, w: int, theme: Theme) -> Seq<SpanV> {
    let path_w = path_width_v(w);
    let spans = seq![
        style::raw_v(" "@),
        widgets::dot_v(viewed, theme),
        style::raw_v(" "@),
        style::styled_v(seq![f.status.letter_v()], theme.status_style_v(f.status)),
        style::raw_v(" "@),
        style::raw_v(text::pad_right_v(util::truncate_left_v(f.path, path_w as int), path_w)),
        style::raw_v(" "@),
        style::styled_v("+"@ + text::pad_left_v(text::decimal_v(f.additions as nat), 4), style::fg_v(theme.added)),
        style::styled_v(" / "@, style::fg_v(theme.tertiary)),
        style::styled_v("-"@ + text::pad_left_v(text::decimal_v(f.deletions as nat), 4), style::fg_v(theme.removed)),
        style::raw_v("  "@),
        style::styled_v(
            util::bar_v(cells, SIZE_BAR_W as nat, '█', '░'),
            style::fg_v(
                if f.deletions > f.additions {
                    theme.removed
                } else {
                    theme.added
                },
            ),
        ),
        style::raw_v(" "@),
    ];
    match annotation_v(f, viewed, theme) {
        Some((text, style)) => spans.push(style::styled_v(text::pad_right_v(text, 9), style)),
        None => spans,
    }
}

/// The row of a file.
pub open spec fn file_row_v(app: AppV, fi: int, selected: bool, cells: nat, w: int) -> TextV {
    let f = app.changeset.files[fi];
    let theme = app.theme;
    let spans = widgets::pad_to_v(
        file_spans_v(f, app.viewed.set.contains(f.content_hash), cells, w, theme),
        w,
    );
    TextV {
        spans: if app.ov.marked.contains(fi as usize) {
            spans.update(0, style::styled_v("▎"@, style::fg_v(theme.accent)))
        } else {
            spans
        },
        style: if selected {
            style::bg_v(theme.bg_selected)
        } else {
            style::plain_v()
        },
    }
}

/// Appends what is said of a file at the end of its row.
fn push_annotation(spans: &mut Vec<Span>, f: &FileChange, viewed: bool, theme: &Theme)
    ensures
        final(spans).deep_view() == (match annotation_v(f.deep_view(), viewed, *theme) {
            Some((text, style)) => old(spans).deep_view().push(
                style::styled_v(text::pad_right_v(text, 9), style),
            ),
            None => old(spans).deep_view(),
        }),
{
    if viewed {
        push_styled(spans, pad_right("reviewed", 9).as_str(), theme.dim());
    } else if f.is_binary() {
        push_styled(spans, pad_right("binary", 9).as_str(), theme.dim());
    } else if let Some(a) = f.status.annotation() {
        let color = match theme.status_style(f.status).fg {
            Some(c) => c,
            None => theme.secondary,
        };
        push_styled(spans, pad_right(a, 9).as_str(), Style::with(color));
    }
}

/// The parts of a file's row.
fn file_spans(f: &FileChange, viewed: bool, cells: usize, w: u16, theme: &Theme) -> (r: Vec<Span>)
    ensures
        r.deep_view() == file_spans_v(f.deep_view(), viewed, cells as nat, w as int, *theme),
{
    let rest: usize = (w as usize).saturating_sub(42);
    let path_w: usize = if rest > 8 {
        rest
    } else {
        8
    };
    let path = truncate_left(f.path.as_str(), path_w);
    let mut plus = "+".to_owned();
    plus.append(pad_left(decimal_usize(f.additions).as_str(), 4).as_str());
    let mut minus = "-".to_owned();
    minus.append(pad_left(decimal_usize(f.deletions).as_str(), 4).as_str());
    let color = if f.deletions > f.additions {
        theme.removed
    } else {
        theme.added
    };
    let mut spans = no_spans();
    push_raw(&mut spans, " ");
    push_dot(&mut spans, viewed, theme);
    push_raw(&mut spans, " ");
    push_styled(&mut spans, char_text(f.status.letter()).as_str(), theme.status_style(f.status));
    push_raw(&mut spans, " ");
    push_raw(&mut spans, pad_right(path.as_str(), path_w).as_str());
    push_raw(&mut spans, " ");
    push_styled(&mut spans, plus.as_str(), theme.added_style());
    push_styled(&mut spans, " / ", theme.dim());
    push_styled(&mut spans, minus.as_str(), theme.removed_style());
    push_raw(&mut spans, "  ");
    push_styled(&mut spans, bar(cells, SIZE_BAR_W, '█', '░').as_str(), Style::with(color));
    push_raw(&mut spans, " ");
    push_annotation(&mut spans, f, viewed, theme);
    assert(spans.deep_view() =~= file_spans_v(
        f.deep_view(),
        viewed,
        cells as nat,
        w as int,
        *theme,
    ));
    spans
}

/// The row of a file.
fn file_row(app: &App, fi: usize, selected: bool, cells: usize, w: u16) -> (r: Line)
    requires
        fi < app@.changeset.files.len(),
    ensures
        r.deep_view() == file_row_v(app@, fi as int, selected, cells as nat, w as int),
{
    let theme = &app.theme;
    let f = &app.changeset.files[fi];
    assert(app@.changeset.files[fi as int] == f.deep_view());
    let viewed: bool = app.is_viewed(fi);
    let mut spans = pad_to(file_spans(f, viewed, cells, w, theme), w);
    if app.ov.marked.contains(&fi) {
        let ghost before = spans.deep_view();
        assert(file_spans_v(f.deep_view(), viewed, cells as nat, w as int, *theme).len() > 0);
        assert(before.len() > 0);
        let mark = Span::styled("▎", Style::with(theme.accent));
        spans.set(0, mark);
        assert(spans.deep_view() =~= before.update(0, style::styled_v("▎"@, style::fg_v(theme.accent))));
    }
    let style: Style = if selected {
        Style::plain().bg(theme.bg_selected)
    } else {
        Style::plain()
    };
    Line { spans, style }
}

// ---- The list ----

impl OverviewV {
    /// With the height of the list, and scrolled so that the cursor is visible.
    pub open spec fn in_view(self, rows: int) -> OverviewV {
        OverviewV {
            viewport_rows: rows,
            offset: if self.selected < self.offset {
                self.selected
            } else if rows > 0 && self.selected >= self.offset + rows {
                self.selected + 1 - rows
            } else {
                self.offset
            },
            ..self
        }
    }

    /// How many files are visible.
    pub open spec fn shown(self, rows: int) -> int {
        layout::min_v(rows, layout::less_v(self.order.len() as int, self.offset))
    }
}

/// The row of the cursor is within the view once the list was drawn. (Where files are hidden below,
/// the last row of the view says how many in place of its file.)
pub proof fn law_cursor_within_view(ov: OverviewV, rows: int)
    requires
        rows > 0,
        0 <= ov.selected < ov.order.len(),
        ov.offset >= 0,
    ensures
        ov.in_view(rows).offset <= ov.selected < ov.in_view(rows).offset + ov.in_view(rows).shown(
            rows,
        ),
{
}

/// The filter, behind the number of files.
pub open spec fn filter_hint_v(ov: OverviewV, theme: Theme) -> SpanV {
    if ov.filtering {
        style::styled_v("   /"@ + ov.filter + "_"@, style::fg_v(theme.accent))
    } else if ov.filter.len() > 0 {
        style::styled_v("   /"@ + ov.filter, style::fg_v(theme.tertiary))
    } else {
        style::raw_v(Seq::empty())
    }
}

/// The header of the list.
pub open spec fn list_header_v(ov: OverviewV, rows: int, w: int, theme: Theme) -> TextV {
    widgets::justified_v(
        seq![
            style::raw_v("  "@),
            style::styled_v(
                "Files ("@ + text::decimal_v(ov.shown(rows) as nat) + " of "@ + text::decimal_v(ov.order.len())
                    + ")"@,
                style::bold_v(),
            ),
            filter_hint_v(ov, theme),
        ],
        seq![style::styled_v("sort: "@ + ov.sort.label_v() + " ▾  "@, style::fg_v(theme.tertiary))],
        w,
    )
}

/// The note that files are hidden below.
pub open spec fn more_v(hidden: nat, w: int, theme: Theme) -> TextV {
    let label = "↓ "@ + text::decimal_v(hidden) + " more"@;
    style::text_line_v(text::repeat_v(' ', layout::less_v(w, label.len() as int + 2) as nat) + label, style::fg_v(theme.tertiary))
}

/// The rows of the visible files; where more are hidden below, the last row says how many.
pub open spec fn list_rows_v(app: AppV, shares: SharesV, rows: int, w: int) -> Seq<TextV> {
    let ov = app.ov;
    let shown = ov.shown(rows);
    let all = Seq::new(
        shown as nat,
        |r: int|
            {
                let at = ov.offset + r;
                let fi = ov.order[at];
                file_row_v(app, fi as int, at == ov.selected, shares.files[fi as int] as nat, w)
            },
    );
    let end = ov.offset + shown;
    if ov.order.len() > end && all.len() > 0 {
        all.update(all.len() - 1, more_v((ov.order.len() - end + 1) as nat, w, app.theme))
    } else {
        all
    }
}

/// What stands in place of the list where it is empty.
pub open spec fn empty_list_v(app: AppV) -> TextV {
    style::text_line_v(
        "  "@ + (if app.changeset.files.len() == 0 {
            "No changes between these revisions."@
        } else {
            "No files match the filter."@
        }),
        style::fg_v(app.theme.tertiary),
    )
}

/// The filter, behind the number of files.
fn push_filter_hint(spans: &mut Vec<Span>, app: &App)
    ensures
        final(spans).deep_view() == old(spans).deep_view().push(filter_hint_v(app@.ov, app@.theme)),
{
    let theme = &app.theme;
    if app.ov.filtering {
        let mut s = "   /".to_owned();
        s.append(app.ov.filter.as_str());
        s.append("_");
        push_styled(spans, s.as_str(), Style::with(theme.accent));
    } else if !app.ov.filter.as_str().is_empty() {
        let mut s = "   /".to_owned();
        s.append(app.ov.filter.as_str());
        push_styled(spans, s.as_str(), theme.dim());
    } else {
        let s = String::new();
        assert(s@ =~= Seq::empty());
        push_raw(spans, s.as_str());
    }
}

/// How many files are visible.
fn shown(app: &App, rows: usize) -> (r: usize)
    ensures
        r == app@.ov.shown(rows as int),
{
    let rest: usize = app.ov.order.len().saturating_sub(app.ov.offset);
    if rows < rest {
        rows
    } else {
        rest
    }
}

/// The header of the list.
fn list_header(app: &App, rows: usize, w: u16) -> (r: Line)
    ensures
        r.deep_view() == list_header_v(app@.ov, rows as int, w as int, app@.theme),
{
    let theme = &app.theme;
    let mut count = "Files (".to_owned();
    count.append(decimal_usize(shown(app, rows)).as_str());
    count.append(" of ");
    count.append(decimal_usize(app.ov.order.len()).as_str());
    count.append(")");
    let mut left = no_spans();
    push_raw(&mut left, "  ");
    push_styled(&mut left, count.as_str(), Style::plain().bold());
    push_filter_hint(&mut left, app);
    let mut sort = "sort: ".to_owned();
    sort.append(app.ov.sort.label());
    sort.append(" ▾  ");
    let mut right = no_spans();
    push_styled(&mut right, sort.as_str(), theme.dim());
    assert(left.deep_view() =~= seq![
        style::raw_v("  "@),
        style::styled_v(count@, style::bold_v()),
        filter_hint_v(app@.ov, *theme),
    ]);
    assert(right.deep_view() =~= seq![style::styled_v(sort@, style::fg_v(theme.tertiary))]);
    justified(left, right, w)
}

/// The note that files are hidden below.
fn more(hidden: usize, w: u16, theme: &Theme) -> (r: Line)
    ensures
        r.deep_view() == more_v(hidden as nat, w as int, *theme),
{
    let mut label = "↓ ".to_owned();
    label.append(decimal_usize(hidden).as_str());
    label.append(" more");
    let len: usize = chars_of(label.as_str()).len();
    let pad: usize = (w as usize).saturating_sub(len.saturating_add(2));
    let mut s = repeat(' ', pad);
    s.append(label.as_str());
    Line::text(s.as_str(), theme.dim())
}

/// The rows of the visible files.
fn list_rows(app: &App, shares: &Shares, rows: usize, w: u16) -> (r: Vec<Line>)
    requires
        app.wf(),
        shares_fit(app@, shares.deep_view()),
    ensures
        r.deep_view() == list_rows_v(app@, shares.deep_view(), rows as int, w as int),
{
    let ghost av = app@;
    let ghost sv = shares.deep_view();
    let count: usize = shown(app, rows);
    let ghost all = Seq::new(
        count as nat,
        |r: int|
            {
                let at = av.ov.offset + r;
                let fi = av.ov.order[at];
                file_row_v(av, fi as int, at == av.ov.selected, sv.files[fi as int] as nat, w as int)
            },
    );
    let mut lines = no_lines();
    let total: usize = app.ov.order.len();
    let mut i: usize = 0;
    while i < count
        invariant
            i <= count,
            count == av.ov.shown(rows as int),
            total == app.ov.order@.len(),
            av == app@,
            app.wf(),
            sv == shares.deep_view(),
            shares_fit(av, sv),
            all == Seq::new(
                count as nat,
                |r: int|
                    {
                        let at = av.ov.offset + r;
                        let fi = av.ov.order[at];
                        file_row_v(
                            av,
                            fi as int,
                            at == av.ov.selected,
                            sv.files[fi as int] as nat,
                            w as int,
                        )
                    },
            ),
            lines.deep_view() =~= all.take(i as int),
        decreases count - i,
    {
        let at: usize = app.ov.offset + i;
        let fi: usize = app.ov.order[at];
        assert(app.ov.order@[at as int] < av.changeset.files.len());
        push_line(&mut lines, file_row(app, fi, at == app.ov.selected, shares.files[fi], w));
        i = i + 1;
    }
    assert(lines.deep_view() =~= all);
    if count > 0 {
        let end: usize = app.ov.offset + count;
        if total > end {
            let line = more(total - end + 1, w, &app.theme);
            let ghost lv = line.deep_view();
            lines.set(count - 1, line);
            assert(lines.deep_view() =~= all.update(count - 1, lv));
        }
    }
    lines
}

// ---- The screen ----

/// The areas of the screen.
#[derive(Clone, Copy)]
pub struct OverviewAreas {
    pub top: Rect,
    /// The area of the list with its header.
    pub files: Rect,
    pub header: Rect,
    pub list: Rect,
    pub rule: Rect,
    pub hints: Rect,
}

/// What stands above the list.
pub open spec fn top_v(app: AppV, shares: SharesV, now: int) -> Seq<TextV> {
    let w = app.width as int;
    let theme = app.theme;
    let cs = app.changeset;
    let dim = style::fg_v(theme.tertiary);
    seq![
        widgets::rule_v(w, theme),
        widgets::justified_v(
            seq![
                style::raw_v("  "@),
                style::styled_v(cs.head_name, theme.header_style_v()),
                style::styled_v("  →  "@, dim),
                style::styled_v(cs.base_name, theme.header_style_v()),
            ],
            seq![style::styled_v("press ? for help  "@, dim)],
            w,
        ),
        widgets::rule_v(w, theme),
        style::blank_v(),
        stats_line_v(cs, now, theme),
        reviewed_line_v(
            actions::viewed_count_v(cs.files, app.viewed.set),
            cs.files.len(),
            shares,
            theme,
        ),
        style::blank_v(),
    ] + group_section_v(app, shares, w).push(style::blank_v())
}

/// The height that the part above the list gets, so that the list and the hints have room.
pub open spec fn top_height_v(lines: nat, height: int) -> int {
    layout::min_v(lines as int, layout::less_v(height, 5))
}

/// The hints of the screen.
pub open spec fn overview_hints_v() -> Seq<(Seq<char>, Seq<char>)> {
    seq![
        ("j/k"@, "nav"@),
        ("⏎"@, "open"@),
        ("v"@, "viewed"@),
        ("/"@, "search"@),
        ("s"@, "sort"@),
        ("c"@, "commits"@),
        ("?"@, "help"@),
        ("q"@, "quit"@),
    ]
}

/// The list of files with its header.
pub open spec fn files_v(app: AppV, a: OverviewAreas, shares: SharesV) -> Seq<OpV> {
    let rows = a.list.height as int;
    let w = a.files.width as int;
    seq![
        layout::text_op_v(a.header, seq![list_header_v(app.ov, rows, w, app.theme)]),
        layout::text_op_v(
            a.list,
            if app.ov.order.len() == 0 {
                seq![empty_list_v(app)]
            } else {
                list_rows_v(app, shares, rows, w)
            },
        ),
    ]
}

/// What the screen shows, and the state that is left: the list is scrolled to the cursor.
pub open spec fn scene_v(app: AppV, a: OverviewAreas, shares: SharesV, now: int) -> (
    AppV,
    Seq<OpV>,
) {
    let theme = app.theme;
    let top = seq![layout::text_op_v(a.top, top_v(app, shares, now))];
    let below = seq![
        layout::text_op_v(a.rule, seq![widgets::rule_v(a.rule.width as int, theme)]),
        layout::text_op_v(a.hints, seq![widgets::footer_v(overview_hints_v(), app.flash, theme)]),
    ];
    if a.files.height == 0 {
        (app, top + below)
    } else {
        let next = AppV { ov: app.ov.in_view(a.list.height as int), ..app };
        (next, top + files_v(next, a, shares) + below)
    }
}

/// What stands above the list.
pub fn top_lines(app: &App, shares: &Shares, now: i64) -> (r: Vec<Line>)
    requires
        app.wf(),
        shares_fit(app@, shares.deep_view()),
    ensures
        r.deep_view() == top_v(app@, shares.deep_view(), now as int),
{
    let theme = &app.theme;
    let w: u16 = app.width;
    let mut left = no_spans();
    push_raw(&mut left, "  ");
    push_styled(&mut left, app.changeset.head_name.as_str(), theme.header_style());
    push_styled(&mut left, "  →  ", theme.dim());
    push_styled(&mut left, app.changeset.base_name.as_str(), theme.header_style());
    let mut right = no_spans();
    push_styled(&mut right, "press ? for help  ", theme.dim());
    assert(left.deep_view() =~= seq![
        style::raw_v("  "@),
        style::styled_v(app.changeset.head_name@, theme.header_style_v()),
        style::styled_v("  →  "@, style::fg_v(theme.tertiary)),
        style::styled_v(app.changeset.base_name@, theme.header_style_v()),
    ]);
    assert(right.deep_view() =~= seq![
        style::styled_v("press ? for help  "@, style::fg_v(theme.tertiary)),
    ]);
    let mut lines = no_lines();
    push_line(&mut lines, rule(w, theme));
    push_line(&mut lines, justified(left, right, w));
    push_line(&mut lines, rule(w, theme));
    push_line(&mut lines, Line::blank());
    push_line(&mut lines, stats_line(app, now));
    push_line(&mut lines, reviewed_line(app, shares));
    push_line(&mut lines, Line::blank());
    let groups = group_section(app, shares, w);
    push_lines(&mut lines, &groups);
    push_line(&mut lines, Line::blank());
    assert(lines.deep_view() =~= top_v(app@, shares.deep_view(), now as int));
    lines
}

/// The height that the part above the list gets.
pub fn top_height(lines: usize, height: u16) -> (r: u16)
    ensures
        r == top_height_v(lines as nat, height as int),
{
    let most: u16 = height.saturating_sub(5);
    if lines < most as usize {
        lines as u16
    } else {
        most
    }
}

/// Scrolls the list so that the cursor is visible.
fn keep_cursor_in_view(app: &mut App, rows: usize)
    requires
        old(app).wf(),
    ensures
        final(app).wf(),
        final(app)@ == (AppV { ov: old(app)@.ov.in_view(rows as int), ..old(app)@ }),
{
    app.ov.viewport_rows = rows;
    if app.ov.selected < app.ov.offset {
        app.ov.offset = app.ov.selected;
    } else if rows > 0 && app.ov.selected - app.ov.offset >= rows {
        app.ov.offset = app.ov.selected - (rows - 1);
    }
}

/// The list of files with its header.
fn files(app: &App, a: OverviewAreas, shares: &Shares) -> (r: Vec<Op>)
    requires
        app.wf(),
        shares_fit(app@, shares.deep_view()),
    ensures
        r.deep_view() == files_v(app@, a, shares.deep_view()),
{
    let rows: usize = a.list.height as usize;
    let w: u16 = a.files.width;
    let mut ops = no_ops();
    let lines = one_line(list_header(app, rows, w));
    push_op(&mut ops, Op::Text { area: a.header, lines, centered: false });
    if app.ov.order.len() == 0 {
        let mut s = "  ".to_owned();
        if app.changeset.files.len() == 0 {
            s.append("No changes between these revisions.");
        } else {
            s.append("No files match the filter.");
        }
        let lines = one_line(Line::text(s.as_str(), app.theme.dim()));
        push_op(&mut ops, Op::Text { area: a.list, lines, centered: false });
    } else {
        let lines = list_rows(app, shares, rows, w);
        push_op(&mut ops, Op::Text { area: a.list, lines, centered: false });
    }
    assert(ops.deep_view() =~= files_v(app@, a, shares.deep_view()));
    ops
}

/// What stands below the list: a rule, and a message or hints.
fn below(app: &App, a: OverviewAreas) -> (r: Vec<Op>)
    ensures
        r.deep_view() == seq![
            layout::text_op_v(a.rule, seq![widgets::rule_v(a.rule.width as int, app@.theme)]),
            layout::text_op_v(
                a.hints,
                seq![widgets::footer_v(overview_hints_v(), app@.flash, app@.theme)],
            ),
        ],
{
    let hints: Vec<(&'static str, &'static str)> = vec![
        ("j/k", "nav"),
        ("⏎", "open"),
        ("v", "viewed"),
        ("/", "search"),
        ("s", "sort"),
        ("c", "commits"),
        ("?", "help"),
        ("q", "quit"),
    ];
    assert(widgets::hints_view(hints@) =~= overview_hints_v());
    let mut ops = no_ops();
    let lines = one_line(rule(a.rule.width, &app.theme));
    push_op(&mut ops, Op::Text { area: a.rule, lines, centered: false });
    let lines = one_line(footer(&hints, &app.flash, &app.theme));
    push_op(&mut ops, Op::Text { area: a.hints, lines, centered: false });
    assert(ops.deep_view() =~= seq![
        layout::text_op_v(a.rule, seq![widgets::rule_v(a.rule.width as int, app@.theme)]),
        layout::text_op_v(
            a.hints,
            seq![widgets::footer_v(overview_hints_v(), app@.flash, app@.theme)],
        ),
    ]);
    ops
}

/// What the screen shows; `top` is what stands above the list. The list is scrolled to the cursor.
pub fn scene(app: &mut App, a: OverviewAreas, top: Vec<Line>, shares: &Shares, now: i64) -> (r: Vec<Op>)
    requires
        old(app).wf(),
        shares_fit(old(app)@, shares.deep_view()),
        top.deep_view() == top_v(old(app)@, shares.deep_view(), now as int),
    ensures
        final(app).wf(),
        (final(app)@, r.deep_view()) == scene_v(old(app)@, a, shares.deep_view(), now as int),
{
    let mut ops = no_ops();
    push_op(&mut ops, Op::Text { area: a.top, lines: top, centered: false });
    assert(ops.deep_view() =~= seq![
        layout::text_op_v(a.top, top_v(old(app)@, shares.deep_view(), now as int)),
    ]);
    let last = below(app, a);
    if a.files.height > 0 {
        keep_cursor_in_view(app, a.list.height as usize);
        let middle = files(app, a, shares);
        append_ops(&mut ops, middle);
    }
    append_ops(&mut ops, last);
    ops
}

} // verus!
