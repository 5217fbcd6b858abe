//! What is drawn where. Nothing here touches a terminal: drawing a screen gives a list of things to
//! draw, and leaves in the state what depends on the size of the screen.
pub mod cells;
pub mod commit;
pub mod commits;
pub mod diff_screen;
pub mod diffview;
pub mod explain;
pub mod help;
pub mod laws;
pub mod layout;
pub mod markdown;
pub mod overview;
pub mod screens;
pub mod widgets;

use vstd::prelude::*;

use crate::app::{App, AppV, Screen};
use crate::commit::{Commit, CommitV};
use crate::explain::ExplainV;
use diff_screen::DiffAreas;
use explain::PanelAreas;
use layout::{Op, OpV, Rect, Size, append_ops, center, no_ops, rows};
use overview::{OverviewAreas, Shares, SharesV};

verus! {

broadcast use vstd::seq_lib::group_seq_properties;

/// The areas into which the screen is divided.
pub ghost struct AreasV {
    pub overview: OverviewAreas,
    pub diff: DiffAreas,
    /// The area of an overlay.
    pub popup: Rect,
    /// The areas of an answer.
    pub panel: PanelAreas,
}

impl AreasV {
    /// Do the areas lie on the screen?
    pub open spec fn within(self, screen: Rect) -> bool {
        &&& layout::within(self.overview.top, screen)
        &&& layout::within(self.overview.files, screen)
        &&& layout::within(self.overview.header, screen)
        &&& layout::within(self.overview.list, screen)
        &&& layout::within(self.overview.rule, screen)
        &&& layout::within(self.overview.hints, screen)
        &&& layout::within(self.diff.header, screen)
        &&& layout::within(self.diff.related, screen)
        &&& layout::within(self.diff.body, screen)
        &&& layout::within(self.diff.rule, screen)
        &&& layout::within(self.diff.hints, screen)
        &&& layout::within(self.popup, screen)
        &&& layout::within(self.panel.popup, screen)
        &&& layout::within(self.panel.body, screen)
        &&& layout::within(self.panel.footer, screen)
    }

    /// The screen as every area.
    pub open spec fn whole(screen: Rect) -> AreasV {
        AreasV {
            overview: OverviewAreas {
                top: screen,
                files: screen,
                header: screen,
                list: screen,
                rule: screen,
                hints: screen,
            },
            diff: DiffAreas {
                header: screen,
                related: screen,
                body: screen,
                rule: screen,
                hints: screen,
            },
            popup: screen,
            panel: PanelAreas { popup: screen, body: screen, footer: screen },
        }
    }

    /// The areas with those of the overview given.
    pub open spec fn with_overview(self, overview: OverviewAreas) -> AreasV {
        AreasV { overview, ..self }
    }

    /// The areas with those of the diff view given.
    pub open spec fn with_diff(self, diff: DiffAreas) -> AreasV {
        AreasV { diff, ..self }
    }

    /// The areas with those of the overlays given.
    pub open spec fn with_overlay(self, popup: Rect, panel: PanelAreas) -> AreasV {
        AreasV { popup, panel, ..self }
    }
}

/// What a drawing depends on besides the state: the screen, the filling of the bars, the time in
/// seconds, and for how long an answer is awaited, in milliseconds.
pub ghost struct MomentV {
    pub area: Rect,
    pub shares: SharesV,
    pub now: int,
    pub elapsed: int,
}

/// What the screen shows, without an overlay.
pub open spec fn screen_v(app: AppV, m: MomentV, a: AreasV) -> (AppV, Seq<OpV>) {
    match app.screen {
        Screen::Overview => overview::scene_v(app, a.overview, m.shares, m.now),
        Screen::Diff => diff_screen::scene_v(app, a.diff),
    }
}

/// What the overlay shows, where there is one.
pub open spec fn overlay_v(app: AppV, m: MomentV, a: AreasV) -> (AppV, Seq<OpV>) {
    if app.show_help {
        (app, help::scene_v(app.assistant.name, app.theme, a.popup))
    } else if app.show_commits {
        (app, commits::scene_v(app.changeset.commits, m.area, app.theme, a.popup))
    } else if !(app.explain is Idle) {
        explain::scene_v(app, m.elapsed, a.popup, a.panel)
    } else {
        match app.commit {
            CommitV::Prompting(p) => (
                app,
                commit::scene_v(p, app.changeset.base_name, app.theme, a.popup),
            ),
            CommitV::Idle => (app, Seq::empty()),
        }
    }
}

/// What is drawn, and the state that is left: the width is noted, the layout of the diff follows it,
/// the screen comes first and the overlay on top.
pub open spec fn draw_v(app: AppV, m: MomentV, a: AreasV) -> (AppV, Seq<OpV>) {
    let fitted = (AppV { width: m.area.width, ..app }).reconciled();
    let (drawn, ops) = screen_v(fitted, m, a);
    let (left, more) = overlay_v(drawn, m, a);
    (left, ops + more)
}

/// The height that the related files get: a title, the files and a blank line.
pub open spec fn related_height_v(n: nat) -> int {
    if n == 0 {
        0
    } else {
        layout::min_v(n as int + 2, 0xffff)
    }
}

/// The height that the related files get.
fn related_height(n: usize) -> (r: u16)
    ensures
        r == related_height_v(n as nat),
{
    if n == 0 {
        0
    } else if n < 0xfffd {
        n as u16 + 2
    } else {
        0xffff
    }
}

/// The overview is drawn in its areas.
proof fn lemma_overview_drawn(app: AppV, m: MomentV, a: AreasV)
    requires
        a.within(m.area),
    ensures
        layout::drawn_within(overview::scene_v(app, a.overview, m.shares, m.now).1, m.area),
{
    let o = a.overview;
    let next = AppV { ov: app.ov.in_view(o.list.height as int), ..app };
    let top = seq![layout::text_op_v(o.top, overview::top_v(app, m.shares, m.now))];
    let files = overview::files_v(next, o, m.shares);
    let below = seq![
        layout::text_op_v(o.rule, seq![widgets::rule_v(o.rule.width as int, app.theme)]),
        layout::text_op_v(
            o.hints,
            seq![widgets::footer_v(overview::overview_hints_v(), app.flash, app.theme)],
        ),
    ];
    layout::lemma_drawn_sum(top, below, m.area);
    layout::lemma_drawn_sum(top, files, m.area);
    layout::lemma_drawn_sum(top + files, below, m.area);
}

/// The diff view is drawn in its areas.
proof fn lemma_diff_drawn(app: AppV, m: MomentV, a: AreasV)
    requires
        a.within(m.area),
    ensures
        layout::drawn_within(diff_screen::scene_v(app, a.diff).1, m.area),
{
    if let Some(d) = app.diff {
        let files = app.changeset.files;
        let (e, body) = diff_screen::body_v(files[d.file_index], d, a.diff.body, app.theme);
        let header = seq![
            layout::text_op_v(a.diff.header, diff_screen::file_header_v(app, d, app.width as int)),
        ];
        let related = if d.related.len() > 0 {
            seq![
                layout::text_op_v(
                    a.diff.related,
                    diff_screen::related_lines_v(
                        files,
                        d.related,
                        a.diff.related.width as int,
                        app.theme,
                    ),
                ),
            ]
        } else {
            Seq::empty()
        };
        let below = seq![
            layout::text_op_v(
                a.diff.rule,
                seq![widgets::rule_v(a.diff.rule.width as int, app.theme)],
            ),
            layout::text_op_v(a.diff.hints, seq![diff_screen::diff_footer_v(app, d)]),
        ];
        layout::lemma_drawn_sum(header, related, m.area);
        layout::lemma_drawn_sum(header + related, body, m.area);
        layout::lemma_drawn_sum(header + related + body, below, m.area);
    }
}

/// What is shown of an explanation is drawn in its areas.
proof fn lemma_explain_drawn(app: AppV, elapsed: int, popup: Rect, a: PanelAreas, screen: Rect)
    requires
        layout::within(popup, screen),
        layout::within(a.popup, screen),
        layout::within(a.body, screen),
        layout::within(a.footer, screen),
    ensures
        layout::drawn_within(explain::scene_v(app, elapsed, popup, a).1, screen),
{
}

/// An overlay is drawn in its areas.
proof fn lemma_overlay_drawn(app: AppV, m: MomentV, a: AreasV)
    requires
        a.within(m.area),
    ensures
        layout::drawn_within(overlay_v(app, m, a).1, m.area),
{
    if !(app.explain is Idle) {
        lemma_explain_drawn(app, m.elapsed, a.popup, a.panel, m.area);
    }
}

/// Nothing is drawn outside the screen.
pub proof fn law_drawn_on_screen(app: AppV, m: MomentV, a: AreasV)
    requires
        a.within(m.area),
    ensures
        layout::drawn_within(draw_v(app, m, a).1, m.area),
{
    let fitted = (AppV { width: m.area.width, ..app }).reconciled();
    let (drawn, ops) = screen_v(fitted, m, a);
    lemma_overview_drawn(fitted, m, a);
    lemma_diff_drawn(fitted, m, a);
    lemma_overlay_drawn(drawn, m, a);
    layout::lemma_drawn_sum(ops, overlay_v(drawn, m, a).1, m.area);
}

/// Is a part as wide as an area?
pub open spec fn as_wide(part: Rect, area: Rect) -> bool {
    part.x == area.x && part.width == area.width
}

/// The areas of the overview on a screen that has room for them: what stands above the list from
/// the top on, the header of the list and the list down to the last rows but two, then the rule and
/// the hints.
pub open spec fn overview_areas_v(area: Rect, top_h: int) -> OverviewAreas {
    let end = area.y + area.height;
    let below = area.y + top_h;
    OverviewAreas {
        top: layout::row_v(area, area.y as int, top_h),
        files: layout::row_v(area, below, end - 2 - below),
        header: layout::row_v(area, below, 1),
        list: layout::row_v(area, below + 1, end - 3 - below),
        rule: layout::row_v(area, end - 2, 1),
        hints: layout::row_v(area, end - 1, 1),
    }
}

/// Are these the areas of the overview, where there is room for them, and all as wide as the screen?
pub open spec fn overview_placed(a: OverviewAreas, area: Rect, top_h: int) -> bool {
    &&& as_wide(a.top, area)
    &&& as_wide(a.files, area)
    &&& as_wide(a.header, area)
    &&& as_wide(a.list, area)
    &&& as_wide(a.rule, area)
    &&& as_wide(a.hints, area)
    &&& top_h + 3 <= area.height ==> a == overview_areas_v(area, top_h)
}

/// The areas of the diff view on a screen that has room for them: the header from the top on, the
/// related files, the diff down to the last rows but two, then the rule and the hints.
pub open spec fn diff_areas_v(area: Rect, related_h: int) -> DiffAreas {
    let end = area.y + area.height;
    let below = area.y + 3 + related_h;
    DiffAreas {
        header: layout::row_v(area, area.y as int, 3),
        related: layout::row_v(area, area.y + 3, related_h),
        body: layout::row_v(area, below, end - 2 - below),
        rule: layout::row_v(area, end - 2, 1),
        hints: layout::row_v(area, end - 1, 1),
    }
}

/// Are these the areas of the diff view, where there is room for them, and all as wide as the
/// screen?
pub open spec fn diff_placed(a: DiffAreas, area: Rect, related_h: int) -> bool {
    &&& as_wide(a.header, area)
    &&& as_wide(a.related, area)
    &&& as_wide(a.body, area)
    &&& as_wide(a.rule, area)
    &&& as_wide(a.hints, area)
    &&& related_h + 6 <= area.height ==> a == diff_areas_v(area, related_h)
}

/// Is an answer in the middle of the screen, its text within the frame and its keys in the last row
/// there?
pub open spec fn panel_placed(a: PanelAreas, area: Rect) -> bool {
    let (width, height) = explain::panel_size_v(area);
    let inner = layout::inside_v(a.popup);
    &&& layout::centered(a.popup, area, width, height)
    &&& as_wide(a.body, inner)
    &&& as_wide(a.footer, inner)
    &&& inner.height >= 2 ==> a.body == layout::row_v(inner, inner.y as int, inner.height - 1)
        && a.footer == layout::row_v(inner, inner.y + inner.height - 1, 1)
}

/// Are the areas of the screen, without an overlay, placed for what it shows?
pub open spec fn screen_placed(app: AppV, m: MomentV, a: AreasV) -> bool {
    match app.screen {
        Screen::Overview => overview_placed(
            a.overview,
            m.area,
            overview::top_height_v(
                overview::top_v(app, m.shares, m.now).len(),
                m.area.height as int,
            ),
        ),
        Screen::Diff => diff_placed(
            a.diff,
            m.area,
            related_height_v(
                match app.diff {
                    Some(d) => d.related.len(),
                    None => 0,
                },
            ),
        ),
    }
}

/// The size that is asked for an overlay, where there is one.
pub open spec fn overlay_size_v(app: AppV, area: Rect) -> Option<(int, int)> {
    if app.show_help {
        Some(help::help_size_v(help::help_lines_v(app.assistant.name, app.theme).len(), area))
    } else if app.show_commits {
        let lines = commits::commits_lines_v(app.changeset.commits, area, app.theme);
        Some((commits::width_v(area), layout::min_v(lines.len() as int + 2, area.height as int)))
    } else {
        match app.explain {
            ExplainV::Prompting(_) => Some(
                (commit::width_v(area, 72), explain::PROMPT_HEIGHT as int),
            ),
            ExplainV::Idle => match app.commit {
                CommitV::Prompting(_) => Some((commit::width_v(area, 72), commit::HEIGHT as int)),
                CommitV::Idle => None,
            },
            _ => Some((commit::width_v(area, 76), explain::SAVE_HEIGHT as int)),
        }
    }
}

/// Is the overlay, where there is one, in the middle of the screen?
pub open spec fn overlay_placed(app: AppV, area: Rect, popup: Rect, panel: PanelAreas) -> bool {
    &&& match overlay_size_v(app, area) {
        Some((width, height)) => layout::centered(popup, area, width, height),
        None => true,
    }
    &&& !app.show_help && !app.show_commits && !(app.explain is Idle) ==> panel_placed(panel, area)
}

/// Are the areas placed for what is drawn?
pub open spec fn placed(app: AppV, m: MomentV, a: AreasV) -> bool {
    let fitted = (AppV { width: m.area.width, ..app }).reconciled();
    let (drawn, _) = screen_v(fitted, m, a);
    &&& a.within(m.area)
    &&& screen_placed(fitted, m, a)
    &&& overlay_placed(drawn, m.area, a.popup, a.panel)
}

/// How the rows of the screen are shared out in the overview: what stands above the list, the list
/// with its header, and two rows below.
pub fn overview_rows(top_h: u16) -> (r: Vec<Size>)
    ensures
        r@ == seq![Size::Length(top_h), Size::Min(1), Size::Length(2)],
{
    vec![Size::Length(top_h), Size::Min(1), Size::Length(2)]
}

/// How the rows of the screen are shared out in the diff view: a header, the related files, the
/// diff, and two rows below.
pub fn diff_rows(related: usize) -> (r: Vec<Size>)
    ensures
        r@ == seq![
            Size::Length(3),
            Size::Length(related_height_v(related as nat) as u16),
            Size::Min(1),
            Size::Length(2),
        ],
{
    vec![Size::Length(3), Size::Length(related_height(related)), Size::Min(1), Size::Length(2)]
}

/// Two areas, one above the other.
fn two(area: Rect, first: Size, second: Size) -> (r: (Rect, Rect))
    ensures
        layout::on_grid(area) ==> layout::all_within(seq![r.0, r.1], area) && layout::all_as_wide(
            seq![r.0, r.1],
            area,
        ),
        layout::on_grid(area) && layout::has_room(seq![first, second], area.height as int)
            ==> layout::stacked(seq![r.0, r.1], area, seq![first, second]),
{
    let sizes: Vec<Size> = vec![first, second];
    let parts = rows(area, &sizes);
    assert(sizes@ =~= seq![first, second]);
    assert(parts@ =~= seq![parts@[0], parts@[1]]);
    (parts[0], parts[1])
}

/// The areas of the overview from the rows of the screen, those of the list and those below it.
pub fn overview_areas_of(parts: &Vec<Rect>, list: (Rect, Rect), below: (Rect, Rect)) -> (r:
    OverviewAreas)
    requires
        parts@.len() == 3,
    ensures
        r == (OverviewAreas {
            top: parts@[0],
            files: parts@[1],
            header: list.0,
            list: list.1,
            rule: below.0,
            hints: below.1,
        }),
{
    OverviewAreas {
        top: parts[0],
        files: parts[1],
        header: list.0,
        list: list.1,
        rule: below.0,
        hints: below.1,
    }
}

/// The areas of the diff view from the rows of the screen and those below the diff.
pub fn diff_areas_of(parts: &Vec<Rect>, below: (Rect, Rect)) -> (r: DiffAreas)
    requires
        parts@.len() == 4,
    ensures
        r == (DiffAreas {
            header: parts@[0],
            related: parts@[1],
            body: parts@[2],
            rule: below.0,
            hints: below.1,
        }),
{
    DiffAreas {
        header: parts[0],
        related: parts[1],
        body: parts[2],
        rule: below.0,
        hints: below.1,
    }
}

/// The areas of an answer from its frame and the rows within.
pub fn panel_areas_of(popup: Rect, rows: (Rect, Rect)) -> (r: PanelAreas)
    ensures
        r == (PanelAreas { popup, body: rows.0, footer: rows.1 }),
{
    PanelAreas { popup, body: rows.0, footer: rows.1 }
}

/// The sizes of two rows: how much they ask for, and how many may grow.
proof fn lemma_two_sizes(first: Size, second: Size)
    ensures
        layout::least_v(seq![first, second], 2) == first.least() + second.least(),
        layout::growing_v(seq![first, second], 2) == (if first is Min {
            1int
        } else {
            0
        }) + (if second is Min {
            1int
        } else {
            0
        }),
{
    reveal_with_fuel(layout::least_v, 3);
    reveal_with_fuel(layout::growing_v, 3);
}

/// The sizes of the rows of the overview.
proof fn lemma_overview_sizes(top_h: u16)
    ensures
        layout::least_v(seq![Size::Length(top_h), Size::Min(1), Size::Length(2)], 3) == top_h + 3,
        layout::growing_v(seq![Size::Length(top_h), Size::Min(1), Size::Length(2)], 3) == 1,
{
    reveal_with_fuel(layout::least_v, 4);
    reveal_with_fuel(layout::growing_v, 4);
}

/// The sizes of the rows of the diff view.
proof fn lemma_diff_sizes(related_h: u16)
    ensures
        layout::least_v(
            seq![Size::Length(3), Size::Length(related_h), Size::Min(1), Size::Length(2)],
            4,
        ) == related_h + 6,
        layout::growing_v(
            seq![Size::Length(3), Size::Length(related_h), Size::Min(1), Size::Length(2)],
            4,
        ) == 1,
{
    reveal_with_fuel(layout::least_v, 5);
    reveal_with_fuel(layout::growing_v, 5);
}

/// Divides the screen for the overview.
fn overview_areas(area: Rect, top_h: u16) -> (r: OverviewAreas)
    ensures
        layout::on_grid(area) ==> AreasV::whole(area).with_overview(r).within(area)
            && overview_placed(r, area, top_h as int),
{
    let sizes = overview_rows(top_h);
    let parts = rows(area, &sizes);
    let list = two(parts[1], Size::Length(1), Size::Min(0));
    let below = two(parts[2], Size::Length(1), Size::Length(1));
    proof {
        lemma_overview_sizes(top_h);
        lemma_two_sizes(Size::Length(1), Size::Min(0));
        lemma_two_sizes(Size::Length(1), Size::Length(1));
        assert(list.0 == seq![list.0, list.1][0] && list.1 == seq![list.0, list.1][1]);
        assert(below.0 == seq![below.0, below.1][0] && below.1 == seq![below.0, below.1][1]);
    }
    overview_areas_of(&parts, list, below)
}

/// Divides the screen for the diff view.
fn diff_areas(area: Rect, related: usize) -> (r: DiffAreas)
    ensures
        layout::on_grid(area) ==> AreasV::whole(area).with_diff(r).within(area) && diff_placed(
            r,
            area,
            related_height_v(related as nat),
        ),
{
    let sizes = diff_rows(related);
    let parts = rows(area, &sizes);
    let below = two(parts[3], Size::Length(1), Size::Length(1));
    proof {
        lemma_diff_sizes(related_height_v(related as nat) as u16);
        lemma_two_sizes(Size::Length(1), Size::Length(1));
        assert(below.0 == seq![below.0, below.1][0] && below.1 == seq![below.0, below.1][1]);
    }
    diff_areas_of(&parts, below)
}

/// Places an answer.
fn panel_areas(area: Rect) -> (r: PanelAreas)
    ensures
        layout::on_grid(area) ==> AreasV::whole(area).with_overlay(area, r).within(area)
            && panel_placed(r, area),
{
    let (width, height) = explain::panel_size(area);
    let popup = center(area, width, height);
    let rows = two(popup.inside(), Size::Min(1), Size::Length(1));
    proof {
        lemma_two_sizes(Size::Min(1), Size::Length(1));
        assert(rows.0 == seq![rows.0, rows.1][0] && rows.1 == seq![rows.0, rows.1][1]);
    }
    panel_areas_of(popup, rows)
}

/// Draws the screen, without an overlay.
fn draw_screen(app: &mut App, area: Rect, shares: &Shares, now: i64) -> (r: (Vec<Op>, Ghost<AreasV>))
    requires
        old(app).wf(),
        overview::shares_fit(old(app)@, shares.deep_view()),
    ensures
        final(app).wf(),
        layout::on_grid(area) ==> r.1@.within(area) && screen_placed(
            old(app)@,
            (MomentV { area, shares: shares.deep_view(), now: now as int, elapsed: 0 }),
            r.1@,
        ),
        (final(app)@, r.0.deep_view()) == (match old(app)@.screen {
            Screen::Overview => overview::scene_v(
                old(app)@,
                r.1@.overview,
                shares.deep_view(),
                now as int,
            ),
            Screen::Diff => diff_screen::scene_v(old(app)@, r.1@.diff),
        }),
{
    let ghost whole = AreasV::whole(area);
    match app.screen {
        Screen::Overview => {
            let top = overview::top_lines(app, shares, now);
            let a = overview_areas(area, overview::top_height(top.len(), area.height));
            let ops = overview::scene(app, a, top, shares, now);
            (ops, Ghost(whole.with_overview(a)))
        },
        Screen::Diff => {
            let related: usize = match &app.diff {
                Some(d) => d.related.len(),
                None => 0,
            };
            let a = diff_areas(area, related);
            let ops = diff_screen::scene(app, a);
            (ops, Ghost(whole.with_diff(a)))
        },
    }
}

/// Draws the overlay, where there is one.
fn draw_overlay(app: &mut App, area: Rect, elapsed: u64) -> (r: (Vec<Op>, Ghost<(Rect, PanelAreas)>))
    requires
        old(app).wf(),
    ensures
        final(app).wf(),
        layout::on_grid(area) ==> AreasV::whole(area).with_overlay(r.1@.0, r.1@.1).within(area)
            && overlay_placed(old(app)@, area, r.1@.0, r.1@.1),
        forall|m: MomentV, a: AreasV|
            m.area == area && m.elapsed == elapsed && a.popup == r.1@.0 && a.panel == r.1@.1
                ==> #[trigger] overlay_v(old(app)@, m, a) == (final(app)@, r.0.deep_view()),
{
    let ghost whole = AreasV::whole(area);
    if app.show_help {
        let lines: usize = help::help_lines(app.assistant.name.as_str(), &app.theme).len();
        let (width, height) = help::help_size(lines, area);
        let popup = center(area, width, height);
        let ops = help::scene(app.assistant.name.as_str(), &app.theme, popup);
        return (ops, Ghost((popup, whole.panel)));
    }
    if app.show_commits {
        let lines: usize = commits::commits_lines(&app.changeset.commits, area, &app.theme).len();
        let (width, height) = commits::size(lines, area);
        let popup = center(area, width, height);
        let ops = commits::scene(&app.changeset.commits, area, &app.theme, popup);
        return (ops, Ghost((popup, whole.panel)));
    }
    if app.explain.is_active() {
        let (width, height): (u16, u16) = if app.explain.is_prompting() {
            (commit::width(area, 72), explain::PROMPT_HEIGHT)
        } else {
            (commit::width(area, 76), explain::SAVE_HEIGHT)
        };
        let popup = center(area, width, height);
        let panel = panel_areas(area);
        let ops = explain::scene(app, elapsed, popup, panel);
        return (ops, Ghost((popup, panel)));
    }
    if let Commit::Prompting(p) = &app.commit {
        let popup = center(area, commit::width(area, 72), commit::HEIGHT);
        let ops = commit::scene(p, app.changeset.base_name.as_str(), &app.theme, popup);
        return (ops, Ghost((popup, whole.panel)));
    }
    (no_ops(), Ghost((area, whole.panel)))
}

/// Draws everything: the screen, and the overlay on top. Where the screen has room, it is fixed
/// where everything stands; how a screen that is too small is shared out is for the layout to say,
/// but all lies on the screen, and what stands in each area is fixed.
pub fn draw(app: &mut App, area: Rect, shares: &Shares, now: i64, elapsed: u64) -> (r: Vec<Op>)
    requires
        old(app).wf(),
        overview::shares_fit(old(app)@, shares.deep_view()),
    ensures
        final(app).wf(),
        exists|a: AreasV|
            (layout::on_grid(area) ==> placed(
                old(app)@,
                (MomentV {
                    area,
                    shares: shares.deep_view(),
                    now: now as int,
                    elapsed: elapsed as int,
                }),
                a,
            )) && (final(app)@, r.deep_view()) == #[trigger] draw_v(
                old(app)@,
                (MomentV {
                    area,
                    shares: shares.deep_view(),
                    now: now as int,
                    elapsed: elapsed as int,
                }),
                a,
            ),
        layout::on_grid(area) ==> layout::drawn_within(r.deep_view(), area),
{
    app.width = area.width;
    app.reconcile_mode();
    let (mut ops, Ghost(screen)) = draw_screen(app, area, shares, now);
    let (more, Ghost(overlay)) = draw_overlay(app, area, elapsed);
    append_ops(&mut ops, more);
    proof {
        let m = MomentV {
            area,
            shares: shares.deep_view(),
            now: now as int,
            elapsed: elapsed as int,
        };
        let a = screen.with_overlay(overlay.0, overlay.1);
        assert((app@, ops.deep_view()) == draw_v(old(app)@, m, a));
        if layout::on_grid(area) {
            law_drawn_on_screen(old(app)@, m, a);
        }
    }
    ops
}

} // verus!
