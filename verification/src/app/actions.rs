//! What the keys do: each operation as a change of state, and what it asks of the outside.
use vstd::prelude::*;
use vstd::string::*;

use crate::app;
use crate::text;
use crate::app::{App, AppV, Screen};
use crate::app::listing;
use crate::app::opening::Load;
use crate::app::rows::{DiffV, ViewMode};
use crate::cli::ForcedMode;
use crate::commit::Commit;
use crate::git::model::FileV;
use crate::text::decimal_usize;
use crate::viewed::ViewedV;

verus! {

// ---- What is asked of the outside ----

/// Why the changes of the working tree are read anew.
pub enum After {
    /// Untracked files are shown, or hidden.
    Toggle,
    /// Files were committed.
    Commit { summary: String, count: usize },
}

/// The mathematical value of an [`After`].
#[verifier::ext_equal]
pub ghost enum AfterV {
    Toggle,
    Commit { summary: Seq<char>, count: int },
}

impl DeepView for After {
    type V = AfterV;

    open spec fn deep_view(&self) -> AfterV {
        match *self {
            After::Toggle => AfterV::Toggle,
            After::Commit { summary, count } => AfterV::Commit {
                summary: summary@,
                count: count as int,
            },
        }
    }
}

/// What the caller is to do, and the function that takes the outcome.
pub enum Action {
    Nothing,
    /// Read the contents of a file, and those of all files where no facts are known:
    /// [`App::load_current_file`].
    LoadFile(Load),
    /// Read the contents of all files: [`App::explain_changeset`].
    ReadChangeset,
    /// Start the assistant with these arguments: [`App::query_started`].
    RunQuery(Vec<String>),
    /// Stop the assistant.
    StopQuery,
    /// Write the explanation to a file: [`crate::explain::Explain::confirm_save`].
    SaveAnswer { name: String, text: String },
    /// Commit the files with the message: [`App::commit_done`].
    Commit { files: Vec<String>, message: String },
    /// Read the changes of the working tree: [`App::rebuild_working`].
    Rebuild { show_untracked: bool, after: After },
}

/// The mathematical value of an [`Action`].
#[verifier::ext_equal]
pub ghost enum ActionV {
    Nothing,
    LoadFile(Load),
    ReadChangeset,
    RunQuery(Seq<Seq<char>>),
    StopQuery,
    SaveAnswer { name: Seq<char>, text: Seq<char> },
    Commit { files: Seq<Seq<char>>, message: Seq<char> },
    Rebuild { show_untracked: bool, after: AfterV },
}

impl DeepView for Action {
    type V = ActionV;

    open spec fn deep_view(&self) -> ActionV {
        match *self {
            Action::Nothing => ActionV::Nothing,
            Action::LoadFile(load) => ActionV::LoadFile(load),
            Action::ReadChangeset => ActionV::ReadChangeset,
            Action::RunQuery(args) => ActionV::RunQuery(args.deep_view()),
            Action::StopQuery => ActionV::StopQuery,
            Action::SaveAnswer { name, text } => ActionV::SaveAnswer { name: name@, text: text@ },
            Action::Commit { files, message } => ActionV::Commit {
                files: files.deep_view(),
                message: message@,
            },
            Action::Rebuild { show_untracked, after } => ActionV::Rebuild {
                show_untracked,
                after: after.deep_view(),
            },
        }
    }
}

/// What an operation asks for.
pub struct Effects {
    /// Write the viewed marks, where they changed.
    pub save_viewed: bool,
    pub action: Action,
}

/// What comes of an operation: the state after it, and what it asks for.
#[verifier::ext_equal]
pub ghost struct OutV {
    pub app: AppV,
    pub save_viewed: bool,
    pub action: ActionV,
}

/// A state and effects, together.
pub open spec fn out_v(app: AppV, r: Effects) -> OutV {
    OutV { app, save_viewed: r.save_viewed, action: r.action.deep_view() }
}

impl Effects {
    /// Nothing is asked for.
    pub fn quiet() -> (r: Effects)
        ensures
            !r.save_viewed,
            r.action.deep_view() == ActionV::Nothing,
    {
        Effects { save_viewed: false, action: Action::Nothing }
    }

    /// One action is asked for.
    pub fn of(action: Action) -> (r: Effects)
        ensures
            !r.save_viewed,
            r.action == action,
    {
        Effects { save_viewed: false, action }
    }
}

impl AppV {
    /// This state, and nothing is asked for.
    pub open spec fn quiet(self) -> OutV {
        OutV { app: self, save_viewed: false, action: ActionV::Nothing }
    }

    /// This state, and one thing is asked for.
    pub open spec fn asking(self, action: ActionV) -> OutV {
        OutV { app: self, save_viewed: false, action }
    }

    /// With a message.
    pub open spec fn said(self, msg: Seq<char>) -> AppV {
        AppV { flash: Some(msg), ..self }
    }

    /// With another state of the open diff.
    pub open spec fn with_diff(self, d: DiffV) -> AppV {
        AppV { diff: Some(d), ..self }
    }

    /// The file under the cursor.
    pub open spec fn selected_file(self) -> Option<usize> {
        self.ov.selected_file()
    }
}

impl App {
    /// Shows a message.
    fn say(&mut self, msg: String)
        ensures
            final(self)@ == old(self)@.said(msg@),
            old(self).wf() ==> final(self).wf(),
    {
        self.flash = Some(msg);
    }

    /// The file under the cursor, as an index into the changeset.
    pub fn selected_file_index(&self) -> (r: Option<usize>)
        ensures
            r == self@.selected_file(),
    {
        self.ov.selected_file()
    }

    pub fn cursor_by(&mut self, delta: isize)
        requires
            old(self).wf(),
        ensures
            final(self).wf(),
            final(self)@ == (AppV { ov: old(self)@.ov.moved_by(delta as int), ..old(self)@ }),
    {
        self.ov.move_by(delta);
    }

    pub fn cursor_to(&mut self, row: usize)
        requires
            old(self).wf(),
        ensures
            final(self).wf(),
            final(self)@ == (AppV { ov: old(self)@.ov.moved_to(row as int), ..old(self)@ }),
    {
        self.ov.move_to(row);
    }

    pub fn diff_scroll_by(&mut self, delta: isize)
        requires
            old(self).wf(),
        ensures
            final(self).wf(),
            final(self)@ == (match old(self)@.diff {
                Some(d) => old(self)@.with_diff(d.scrolled(delta as int)),
                None => old(self)@,
            }),
    {
        if let Some(d) = &mut self.diff {
            d.scroll_by(delta);
        }
    }
}

// ---- The open diff ----

impl App {
    pub fn diff_scroll_to(&mut self, row: usize)
        requires
            old(self).wf(),
        ensures
            final(self).wf(),
            final(self)@ == (match old(self)@.diff {
                Some(d) => old(self)@.with_diff(d.scrolled_to(row as int)),
                None => old(self)@,
            }),
    {
        if let Some(d) = &mut self.diff {
            d.scroll_to(row);
        }
    }

    pub fn diff_jump_hunk(&mut self, dir: isize)
        requires
            old(self).wf(),
        ensures
            final(self).wf(),
            final(self)@ == (match old(self)@.diff {
                Some(d) => old(self)@.with_diff(d.hunk_jumped(dir as int)),
                None => old(self)@,
            }),
    {
        if let Some(d) = &mut self.diff {
            d.jump_hunk(dir);
        }
    }

    /// Opens the fold nearest to the top of the view.
    pub fn fold_expand_nearest(&mut self)
        requires
            old(self).wf(),
        ensures
            final(self).wf(),
            final(self)@ == (match old(self)@.diff {
                Some(d) => old(self)@.with_diff(d.fold_expanded()),
                None => old(self)@,
            }),
    {
        if let Some(d) = &mut self.diff {
            d.expand_nearest();
        }
    }

    /// Closes the fold that holds the line at the top of the view.
    pub fn fold_collapse_nearest(&mut self)
        requires
            old(self).wf(),
        ensures
            final(self).wf(),
            final(self)@ == (match old(self)@.diff {
                Some(d) => old(self)@.with_diff(d.fold_collapsed()),
                None => old(self)@,
            }),
    {
        if let Some(d) = &mut self.diff {
            d.collapse_nearest();
        }
    }

    /// Opens all folds of the file, or closes all.
    pub fn fold_all(&mut self, expand: bool)
        requires
            old(self).wf(),
        ensures
            final(self).wf(),
            final(self)@ == (match old(self)@.diff {
                Some(d) => old(self)@.with_diff(d.folded_all(expand)),
                None => old(self)@,
            }),
    {
        if let Some(d) = &mut self.diff {
            d.fold_all(expand);
        }
    }
}

/// The other layout.
pub open spec fn other_mode_v(mode: ViewMode) -> ViewMode {
    match mode {
        ViewMode::Unified => ViewMode::SideBySide,
        ViewMode::SideBySide => ViewMode::Unified,
    }
}

/// The layout for a width.
pub open spec fn width_mode_v(width: u16) -> ViewMode {
    if width >= crate::app::SIDE_BY_SIDE_MIN_WIDTH {
        ViewMode::SideBySide
    } else {
        ViewMode::Unified
    }
}

impl AppV {
    /// In the other layout, which then stays.
    pub open spec fn mode_toggled(self) -> AppV {
        match self.diff {
            Some(d) => AppV {
                mode_override: Some(other_mode_v(d.mode)),
                diff: Some(d.in_mode(other_mode_v(d.mode))),
                ..self
            },
            None => self,
        }
    }

    /// Is the layout set, by the command line or by the user?
    pub open spec fn mode_is_pinned(self) -> bool {
        self.forced_mode is Some || self.mode_override is Some
    }

    /// The layout for a diff that is opened: what the user chose, else what the command line asks
    /// for, else what fits the width.
    pub open spec fn initial_mode(self) -> ViewMode {
        match self.mode_override {
            Some(m) => m,
            None => match self.forced_mode {
                Some(ForcedMode::Unified) => ViewMode::Unified,
                Some(ForcedMode::SideBySide) => ViewMode::SideBySide,
                None => width_mode_v(self.width),
            },
        }
    }

    /// In the layout that fits the width, where none is set.
    pub open spec fn reconciled(self) -> AppV {
        let desired = width_mode_v(self.width);
        match self.diff {
            Some(d) => if !self.mode_is_pinned() && d.mode != desired {
                self.with_diff(d.in_mode(desired))
            } else {
                self
            },
            None => self,
        }
    }
}

impl App {
    /// The layout that fits the width.
    pub fn auto_mode(&self) -> (r: ViewMode)
        ensures
            r == width_mode_v(self@.width),
    {
        if self.width >= crate::app::SIDE_BY_SIDE_MIN_WIDTH {
            ViewMode::SideBySide
        } else {
            ViewMode::Unified
        }
    }

    /// Is the layout set, by the command line or by the user? Then the width does not decide.
    pub fn mode_is_pinned(&self) -> (r: bool)
        ensures
            r == self@.mode_is_pinned(),
    {
        self.forced_mode.is_some() || self.mode_override.is_some()
    }

    /// The layout for a diff that is opened.
    pub fn initial_view_mode(&self) -> (r: ViewMode)
        ensures
            r == self@.initial_mode(),
    {
        match self.mode_override {
            Some(m) => m,
            None => match self.forced_mode {
                Some(ForcedMode::Unified) => ViewMode::Unified,
                Some(ForcedMode::SideBySide) => ViewMode::SideBySide,
                None => self.auto_mode(),
            },
        }
    }

    /// Fits the layout of the open diff to the width, where none is set; the hunk at the top stays.
    pub fn reconcile_mode(&mut self)
        requires
            old(self).wf(),
        ensures
            final(self).wf(),
            final(self)@ == old(self)@.reconciled(),
    {
        if self.mode_is_pinned() {
            return ;
        }
        let desired = self.auto_mode();
        if let Some(d) = &mut self.diff {
            if d.mode != desired {
                d.set_mode(desired);
            }
        }
    }

    /// Changes the layout, and keeps it; the hunk at the top stays.
    pub fn toggle_mode(&mut self)
        requires
            old(self).wf(),
        ensures
            final(self).wf(),
            final(self)@ == old(self)@.mode_toggled(),
    {
        if let Some(d) = &mut self.diff {
            let mode: ViewMode = match d.mode {
                ViewMode::Unified => ViewMode::SideBySide,
                ViewMode::SideBySide => ViewMode::Unified,
            };
            d.set_mode(mode);
            self.mode_override = Some(mode);
        }
    }

    pub fn back_to_overview(&mut self)
        requires
            old(self).wf(),
        ensures
            final(self).wf(),
            final(self)@ == (AppV { screen: Screen::Overview, ..old(self)@ }),
    {
        self.screen = Screen::Overview;
    }
}

// ---- Search ----

impl AppV {
    /// At the match `dir` matches on, and with its number.
    pub open spec fn search_jumped(self, dir: int) -> AppV {
        match self.diff {
            Some(d) => if d.matches.len() == 0 {
                self.said(
                    if d.search.len() == 0 {
                        "no active search"@
                    } else {
                        "no matches for \""@ + d.search + "\""@
                    },
                )
            } else {
                let e = d.match_jumped(dir);
                self.with_diff(e).said(
                    "match "@ + text::decimal_v((e.match_idx + 1) as nat) + "/"@ + text::decimal_v(
                        d.matches.len(),
                    ),
                )
            },
            None => self,
        }
    }
}

impl App {
    /// Finds the matches anew; where `jump` is set, goes to the first from the top on.
    pub fn recompute_matches(&mut self, jump: bool)
        requires
            old(self).wf(),
        ensures
            final(self).wf(),
            final(self)@ == (match old(self)@.diff {
                Some(d) => old(self)@.with_diff(d.rematched(jump)),
                None => old(self)@,
            }),
    {
        if let Some(d) = &mut self.diff {
            d.recompute_matches(jump);
        }
    }

    /// Goes to the match `dir` matches on.
    pub fn search_jump(&mut self, dir: isize)
        requires
            old(self).wf(),
        ensures
            final(self).wf(),
            final(self)@ == old(self)@.search_jumped(dir as int),
    {
        let mut msg = String::new();
        if let Some(d) = &mut self.diff {
            if d.matches.len() == 0 {
                if d.search.as_str().is_empty() {
                    msg.append("no active search");
                } else {
                    msg.append("no matches for \"");
                    msg.append(d.search.as_str());
                    msg.append("\"");
                }
            } else {
                d.jump_match(dir);
                msg.append("match ");
                msg.append(decimal_usize(d.match_idx + 1).as_str());
                msg.append("/");
                msg.append(decimal_usize(d.matches.len()).as_str());
            }
        } else {
            return ;
        }
        self.say(msg);
    }
}

// ---- The overview ----

/// The content hashes of some files.
pub open spec fn hashes_v(files: Seq<FileV>, targets: Set<usize>) -> Set<u64> {
    Set::new(
        |h: u64|
            exists|f: usize| #[trigger]
                targets.contains(f) && files[f as int].content_hash == h,
    )
}

/// Is one of the files not viewed?
pub open spec fn any_unviewed_v(files: Seq<FileV>, targets: Set<usize>, viewed: Set<u64>) -> bool {
    exists|f: usize| #[trigger]
        targets.contains(f) && !viewed.contains(files[f as int].content_hash)
}

/// How many of the files are viewed.
pub open spec fn viewed_count_v(files: Seq<FileV>, viewed: Set<u64>) -> nat
    decreases files.len(),
{
    if files.len() == 0 {
        0
    } else {
        viewed_count_v(files.drop_last(), viewed) + (if viewed.contains(files.last().content_hash) {
            1nat
        } else {
            0nat
        })
    }
}

impl AppV {
    /// With the marked files, else the one under the cursor, viewed; where all are, not viewed.
    pub open spec fn viewed_toggled(self) -> OutV {
        let files = self.changeset.files;
        let targets = self.ov.targets();
        if targets.is_empty() {
            self.quiet()
        } else {
            let hashes = hashes_v(files, targets);
            let set = if any_unviewed_v(files, targets, self.viewed.set) {
                self.viewed.set.union(hashes)
            } else {
                self.viewed.set.difference(hashes)
            };
            OutV {
                app: AppV {
                    viewed: ViewedV { set, dirty: true },
                    ov: listing::OverviewV { marked: Set::empty(), ..self.ov },
                    ..self
                },
                save_viewed: true,
                action: ActionV::Nothing,
            }
        }
    }

    /// With the files listed anew.
    pub open spec fn reordered(self) -> AppV {
        AppV { ov: self.ov.reordered(self.changeset.files), ..self }
    }
}

impl App {
    /// Lists the files anew by the sort order and the filter.
    pub fn recompute_order(&mut self)
        requires
            old(self).wf(),
        ensures
            final(self).wf(),
            final(self)@ == old(self)@.reordered(),
    {
        let count: usize = self.changeset.files.len();
        proof {
            assert(self@.changeset.files.len() == count);
            app::lemma_each_fits(self@.changeset.files);
            listing::law_overview_stays_valid(self@.ov, self@.changeset.files, 0, 0);
        }
        self.ov.reorder(&self.changeset.files);
    }

    /// Sorts by the next key and keeps the cursor on the same file.
    pub fn cycle_sort(&mut self)
        requires
            old(self).wf(),
        ensures
            final(self).wf(),
            final(self)@ == (AppV {
                ov: old(self)@.ov.resorted(old(self)@.changeset.files),
                ..old(self)@
            }),
    {
        let count: usize = self.changeset.files.len();
        proof {
            assert(self@.changeset.files.len() == count);
            app::lemma_each_fits(self@.changeset.files);
            listing::law_overview_stays_valid(self@.ov, self@.changeset.files, 0, 0);
        }
        self.ov.cycle_sort(&self.changeset.files);
    }

    /// Marks the file under the cursor, or takes its mark off.
    pub fn toggle_mark(&mut self)
        requires
            old(self).wf(),
        ensures
            final(self).wf(),
            final(self)@ == (AppV { ov: old(self)@.ov.mark_toggled(), ..old(self)@ }),
    {
        let count: usize = self.changeset.files.len();
        proof {
            assert(self@.changeset.files.len() == count);
            listing::law_overview_stays_valid(self@.ov, self@.changeset.files, 0, 0);
        }
        self.ov.toggle_mark();
    }

    /// Is one of the files not viewed?
    fn any_unviewed(&self, targets: &Vec<usize>) -> (r: bool)
        requires
            forall|k: int|
                0 <= k < targets@.len() ==> #[trigger] targets@[k] < self@.changeset.files.len(),
        ensures
            r == any_unviewed_v(self@.changeset.files, targets@.to_set(), self@.viewed.set),
    {
        let ghost files = self@.changeset.files;
        let mut i: usize = 0;
        while i < targets.len()
            invariant
                i <= targets@.len(),
                files == self@.changeset.files,
                forall|k: int| 0 <= k < targets@.len() ==> #[trigger] targets@[k] < files.len(),
                forall|k: int|
                    0 <= k < i ==> self@.viewed.set.contains(
                        files[#[trigger] targets@[k] as int].content_hash,
                    ),
            decreases targets@.len() - i,
        {
            let f: usize = targets[i];
            assert(targets@[i as int] < files.len());
            assert(files[f as int] == self.changeset.files@[f as int].deep_view());
            if !self.viewed.is_viewed(self.changeset.files[f].content_hash) {
                assert(targets@.to_set().contains(f));
                return true;
            }
            i = i + 1;
        }
        assert forall|f: usize| #[trigger] targets@.to_set().contains(f) implies self@.viewed.set.contains(
            files[f as int].content_hash,
        ) by {
            let k = choose|k: int| 0 <= k < targets@.len() && targets@[k] == f;
            assert(files[targets@[k] as int].content_hash == files[f as int].content_hash);
        }
        false
    }

    /// Sets files viewed, or not viewed.
    fn set_all_viewed(&mut self, targets: &Vec<usize>, viewed: bool)
        requires
            forall|k: int|
                0 <= k < targets@.len() ==> #[trigger] targets@[k] < old(
                    self,
                )@.changeset.files.len(),
        ensures
            final(self)@.viewed.set == (if viewed {
                old(self)@.viewed.set.union(
                    hashes_v(old(self)@.changeset.files, targets@.to_set()),
                )
            } else {
                old(self)@.viewed.set.difference(
                    hashes_v(old(self)@.changeset.files, targets@.to_set()),
                )
            }),
            final(self)@ == (AppV { viewed: final(self)@.viewed, ..old(self)@ }),
            final(self)@.viewed.dirty == (old(self)@.viewed.dirty || exists|f: usize| #[trigger]
                targets@.to_set().contains(f) && old(self)@.viewed.set.contains(
                    old(self)@.changeset.files[f as int].content_hash,
                ) != viewed),
            final(self).syntax == old(self).syntax,
    {
        let ghost files = self@.changeset.files;
        let ghost was = self@.viewed.set;
        let ghost dirty = self@.viewed.dirty;
        let mut i: usize = 0;
        while i < targets.len()
            invariant
                i <= targets@.len(),
                files == self@.changeset.files,
                files == old(self)@.changeset.files,
                self@ == (AppV { viewed: self@.viewed, ..old(self)@ }),
                self.syntax == old(self).syntax,
                forall|k: int| 0 <= k < targets@.len() ==> #[trigger] targets@[k] < files.len(),
                forall|h: u64| #[trigger]
                    self@.viewed.set.contains(h) <==> (if exists|k: int|
                        0 <= k < i && files[#[trigger] targets@[k] as int].content_hash == h {
                        viewed
                    } else {
                        was.contains(h)
                    }),
                self@.viewed.dirty == (dirty || exists|k: int|
                    0 <= k < i && was.contains(files[#[trigger] targets@[k] as int].content_hash)
                        != viewed),
            decreases targets@.len() - i,
        {
            let f: usize = targets[i];
            assert(targets@[i as int] < files.len());
            assert(files[f as int] == self.changeset.files@[f as int].deep_view());
            let hash: u64 = self.changeset.files[f].content_hash;
            let ghost before = self@.viewed.set;
            assert(before.contains(hash) == viewed || before.contains(hash) == was.contains(hash));
            self.viewed.set_viewed(hash, viewed);
            proof {
                assert forall|h: u64| #[trigger] self@.viewed.set.contains(h) <==> (if exists|k: int|
                    0 <= k < i + 1 && files[#[trigger] targets@[k] as int].content_hash == h {
                    viewed
                } else {
                    was.contains(h)
                }) by {
                    assert(before.contains(h) <==> (if exists|k: int|
                        0 <= k < i && files[#[trigger] targets@[k] as int].content_hash == h {
                        viewed
                    } else {
                        was.contains(h)
                    }));
                    if h == hash {
                        assert(files[targets@[i as int] as int].content_hash == h);
                    }
                }
            }
            i = i + 1;
        }
        proof {
            let hashes = hashes_v(files, targets@.to_set());
            assert forall|h: u64| #[trigger] hashes.contains(h) <==> exists|k: int|
                0 <= k < targets@.len() && files[#[trigger] targets@[k] as int].content_hash == h by {
                if hashes.contains(h) {
                    let f = choose|f: usize| #[trigger]
                        targets@.to_set().contains(f) && files[f as int].content_hash == h;
                    let k = choose|k: int| 0 <= k < targets@.len() && targets@[k] == f;
                    assert(files[targets@[k] as int].content_hash == h);
                }
                if exists|k: int|
                    0 <= k < targets@.len() && files[#[trigger] targets@[k] as int].content_hash == h {
                    let k = choose|k: int|
                        0 <= k < targets@.len() && files[#[trigger] targets@[k] as int].content_hash
                            == h;
                    assert(targets@.to_set().contains(targets@[k]));
                }
            }
            if viewed {
                assert(self@.viewed.set =~= was.union(hashes));
            } else {
                assert(self@.viewed.set =~= was.difference(hashes));
            }
            if exists|k: int|
                0 <= k < targets@.len() && was.contains(
                    files[#[trigger] targets@[k] as int].content_hash,
                ) != viewed {
                let k = choose|k: int|
                    0 <= k < targets@.len() && was.contains(
                        files[#[trigger] targets@[k] as int].content_hash,
                    ) != viewed;
                assert(targets@.to_set().contains(targets@[k]));
            }
            if exists|f: usize| #[trigger]
                targets@.to_set().contains(f) && was.contains(files[f as int].content_hash)
                    != viewed {
                let f = choose|f: usize| #[trigger]
                    targets@.to_set().contains(f) && was.contains(files[f as int].content_hash)
                        != viewed;
                let k = choose|k: int| 0 <= k < targets@.len() && targets@[k] == f;
                assert(was.contains(files[targets@[k] as int].content_hash) != viewed);
            }
        }
    }

    /// Sets the marked files, else the one under the cursor, viewed; where all are, not viewed. The
    /// marks go.
    pub fn toggle_viewed_selection(&mut self) -> (r: Effects)
        requires
            old(self).wf(),
        ensures
            final(self).wf(),
            out_v(final(self)@, r) == old(self)@.viewed_toggled(),
    {
        let targets = self.ov.targets();
        let ghost set = targets@.to_set();
        proof {
            assert forall|k: int| 0 <= k < targets@.len() implies #[trigger] targets@[k]
                < self@.changeset.files.len() by {
                assert(set.contains(targets@[k]));
            }
        }
        if targets.len() == 0 {
            assert(set =~= Set::empty());
            return Effects::quiet();
        }
        proof {
            assert(set.contains(targets@[0]));
        }
        let any: bool = self.any_unviewed(&targets);
        self.set_all_viewed(&targets, any);
        proof {
            let was = old(self)@.viewed.set;
            let files = old(self)@.changeset.files;
            assert(self@.viewed.dirty) by {
                if any {
                    let f = choose|f: usize| #[trigger]
                        set.contains(f) && !was.contains(files[f as int].content_hash);
                    assert(set.contains(f) && was.contains(files[f as int].content_hash) != any);
                } else {
                    let f = targets@[0];
                    assert(set.contains(f) && was.contains(files[f as int].content_hash) != any);
                }
            }
        }
        self.ov.marked = std::collections::HashSet::new();
        Effects { save_viewed: true, action: Action::Nothing }
    }

    /// How many files are viewed.
    pub fn viewed_count(&self) -> (r: usize)
        ensures
            r == viewed_count_v(self@.changeset.files, self@.viewed.set),
            r <= self@.changeset.files.len(),
    {
        let ghost files = self@.changeset.files;
        let mut count: usize = 0;
        let mut i: usize = 0;
        assert(files.take(0) =~= Seq::empty());
        while i < self.changeset.files.len()
            invariant
                count <= i <= self.changeset.files@.len(),
                files == self@.changeset.files,
                count == viewed_count_v(files.take(i as int), self@.viewed.set),
            decreases self.changeset.files@.len() - i,
        {
            assert(files[i as int] == self.changeset.files@[i as int].deep_view());
            assert(files.take(i + 1).drop_last() =~= files.take(i as int));
            if self.viewed.is_viewed(self.changeset.files[i].content_hash) {
                count = count + 1;
            }
            i = i + 1;
        }
        assert(files.take(files.len() as int) =~= files);
        count
    }

    /// Is a file viewed?
    pub fn is_viewed(&self, file_index: usize) -> (r: bool)
        requires
            file_index < self@.changeset.files.len(),
        ensures
            r == self@.viewed.set.contains(self@.changeset.files[file_index as int].content_hash),
    {
        assert(self@.changeset.files[file_index as int]
            == self.changeset.files@[file_index as int].deep_view());
        self.viewed.is_viewed(self.changeset.files[file_index].content_hash)
    }

    /// Are the groups those of the configuration?
    pub fn using_config_groups(&self) -> (r: bool)
        ensures
            r == self@.grouping.from_config,
    {
        self.grouping.from_config
    }

    /// Is a file in more than one group?
    pub fn multi_group_overlap(&self) -> (r: bool)
        ensures
            r == self@.grouping.multi_group,
    {
        self.grouping.multi_group
    }
}

} // verus!
