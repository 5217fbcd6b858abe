//! Operations that ask for something outside: files to read, commits, explanations.
use std::collections::HashSet;
use vstd::prelude::*;
use vstd::string::*;

use crate::app;
use crate::app::actions;
use crate::explain;
use crate::git;
use crate::group;
use crate::text;
use crate::util;
use crate::app::{App, AppV, Screen};
use crate::app::actions::{Action, ActionV, After, AfterV, Effects, OutV};
use crate::app::listing;
use crate::app::listing::OverviewV;
use crate::app::opening::Load;
use crate::app::related::{Blobs, BlobsV};
use crate::app::rows::{DiffV, ViewMode};
use crate::commit::{Commit, CommitV, PromptingV};
use crate::explain::{Explain, ExplainModel, ExplainV, GuidanceV, MAX_DIFF_BYTES, render_unified};
use crate::git::Repo;
use crate::git::diff::CONTEXT_RADIUS;
use crate::git::model::{Changeset, ChangesetV, FileV};
use crate::group::build;
use crate::text::{byte_len, decimal_usize, trim};
use crate::util::{moved, plural};
use crate::viewed::ViewedV;

verus! {

// ---- Files ----

impl AppV {
    /// The layout of the open diff.
    pub open spec fn open_mode(self) -> ViewMode {
        match self.diff {
            Some(d) => d.mode,
            None => ViewMode::Unified,
        }
    }

    /// Asking for the file under the cursor, in a layout.
    pub open spec fn loading(self, mode: ViewMode, anchor: Option<usize>, enter: bool) -> OutV {
        match self.selected_file() {
            Some(file_index) => self.asking(
                ActionV::LoadFile(Load { file_index, mode, anchor, enter }),
            ),
            None => self.quiet(),
        }
    }

    /// Asking for the file under the cursor, to enter the diff view.
    pub open spec fn opening(self) -> OutV {
        match self.selected_file() {
            Some(_) => (AppV { related_cursor: 0, ..self }).loading(
                self.initial_mode(),
                None,
                true,
            ),
            None => self.quiet(),
        }
    }

    /// On the file `dir` rows on, and asking for it, where there is one.
    pub open spec fn file_changed(self, dir: int) -> OutV {
        let next = self.ov.moved_by(dir);
        if next.selected == self.ov.selected {
            self.quiet()
        } else {
            (AppV { ov: next, related_cursor: 0, ..self }).loading(self.open_mode(), None, false)
        }
    }

    /// On the next related file, or on the one before, and asking for it where it is listed.
    pub open spec fn related_jumped(self, dir: int) -> OutV {
        match self.diff {
            None => self.quiet(),
            Some(d) => match d.next_related(self.related_cursor, dir) {
                None => self.said("no related files"@).quiet(),
                Some((target, cursor)) => {
                    let next = AppV { related_cursor: cursor, ..self };
                    if self.ov.order.contains(target) {
                        (AppV { ov: self.ov.on_file(target), ..next }).loading(d.mode, None, false)
                    } else {
                        next.said("related file is filtered out"@).quiet()
                    }
                },
            },
        }
    }

    /// With the open file viewed, and on the next file, or on the overview after the last.
    pub open spec fn viewed_advanced(self) -> OutV {
        let (s, save) = match self.selected_file() {
            Some(f) => {
                let hash = self.changeset.files[f as int].content_hash;
                (
                    AppV {
                        viewed: ViewedV {
                            set: self.viewed.set.insert(hash),
                            dirty: self.viewed.dirty || !self.viewed.set.contains(hash),
                        },
                        ..self
                    },
                    true,
                )
            },
            None => (self, false),
        };
        if s.ov.selected + 1 < s.ov.order.len() {
            OutV { save_viewed: save, ..s.file_changed(1) }
        } else {
            OutV { save_viewed: save, ..(AppV { screen: Screen::Overview, ..s }).quiet() }
        }
    }

    /// With the next treatment of whitespace, and asking for the file anew, at the same hunk.
    pub open spec fn whitespace_cycled(self) -> OutV {
        match self.diff {
            None => self.quiet(),
            Some(d) => {
                let next = d.whitespace.next_v();
                let hunk = d.current_hunk();
                let e = DiffV { whitespace: next, ..d };
                let said = "whitespace: "@ + next.label_v();
                match self.selected_file() {
                    Some(_) => self.with_diff(e).said(said).loading(
                        d.mode,
                        Some(hunk as usize),
                        false,
                    ),
                    None => self.with_diff(e.anchored(hunk)).said(said).quiet(),
                }
            },
        }
    }
}

impl App {
    /// Asks for the file under the cursor.
    fn request_file(&self, mode: ViewMode, anchor: Option<usize>, enter: bool) -> (r: Effects)
        requires
            self.wf(),
        ensures
            actions::out_v(self@, r) == self@.loading(mode, anchor, enter),
            r.action matches Action::LoadFile(l) ==> l.file_index < self@.changeset.files.len(),
    {
        match self.selected_file_index() {
            Some(file_index) => Effects::of(
                Action::LoadFile(Load { file_index, mode, anchor, enter }),
            ),
            None => Effects::quiet(),
        }
    }

    /// Asks for the file under the cursor, to enter the diff view.
    pub fn open_diff(&mut self) -> (r: Effects)
        requires
            old(self).wf(),
        ensures
            final(self).wf(),
            actions::out_v(final(self)@, r) == old(self)@.opening(),
            r.action matches Action::LoadFile(l) ==> l.file_index < final(self)@.changeset.files.len(),
    {
        if self.selected_file_index().is_none() {
            return Effects::quiet();
        }
        let mode = self.initial_view_mode();
        self.related_cursor = 0;
        self.request_file(mode, None, true)
    }

    /// Goes to the file `dir` rows on, and stays in the diff view.
    pub fn diff_change_file(&mut self, dir: isize) -> (r: Effects)
        requires
            old(self).wf(),
        ensures
            final(self).wf(),
            actions::out_v(final(self)@, r) == old(self)@.file_changed(dir as int),
            r.action matches Action::LoadFile(l) ==> l.file_index < final(self)@.changeset.files.len()
                && !l.enter,
    {
        if self.ov.order.len() == 0 {
            return Effects::quiet();
        }
        let next: usize = moved(self.ov.selected, dir, self.ov.order.len() - 1);
        if next == self.ov.selected {
            return Effects::quiet();
        }
        self.ov.selected = next;
        self.related_cursor = 0;
        let mode: ViewMode = match &self.diff {
            Some(d) => d.mode,
            None => ViewMode::Unified,
        };
        self.request_file(mode, None, false)
    }
}

impl App {
    /// Goes to the next of the related files, or to the one before.
    pub fn diff_jump_related(&mut self, dir: isize) -> (r: Effects)
        requires
            old(self).wf(),
        ensures
            final(self).wf(),
            actions::out_v(final(self)@, r) == old(self)@.related_jumped(dir as int),
            r.action matches Action::LoadFile(l) ==> l.file_index < final(self)@.changeset.files.len()
                && !l.enter,
    {
        let (mode, found): (ViewMode, Option<(usize, usize)>) = match &self.diff {
            None => {
                return Effects::quiet();
            },
            Some(d) => (d.mode, d.next_related(self.related_cursor, dir)),
        };
        let target: usize = match found {
            None => {
                self.flash = Some("no related files".to_owned());
                return Effects::quiet();
            },
            Some((target, cursor)) => {
                self.related_cursor = cursor;
                target
            },
        };
        let row = self.ov.row_of(target);
        match row {
            None => {
                self.flash = Some("related file is filtered out".to_owned());
                Effects::quiet()
            },
            Some(p) => {
                self.ov.selected = p;
                self.request_file(mode, None, false)
            },
        }
    }

    /// Sets the file under the cursor viewed and goes to the next; from the last, back to the
    /// overview.
    pub fn diff_mark_viewed_advance(&mut self) -> (r: Effects)
        requires
            old(self).wf(),
        ensures
            final(self).wf(),
            actions::out_v(final(self)@, r) == old(self)@.viewed_advanced(),
            r.action matches Action::LoadFile(l) ==> l.file_index < final(self)@.changeset.files.len()
                && !l.enter,
    {
        let mut save: bool = false;
        if let Some(f) = self.selected_file_index() {
            assert(self@.changeset.files[f as int] == self.changeset.files@[f as int].deep_view());
            let hash: u64 = self.changeset.files[f].content_hash;
            self.viewed.set_viewed(hash, true);
            save = true;
        }
        if self.ov.order.len() > 0 && self.ov.selected < self.ov.order.len() - 1 {
            let r = self.diff_change_file(1);
            Effects { save_viewed: save, action: r.action }
        } else {
            self.back_to_overview();
            Effects { save_viewed: save, action: Action::Nothing }
        }
    }

    /// Treats whitespace in the next way, and asks for the file anew, at the same hunk.
    pub fn cycle_whitespace(&mut self) -> (r: Effects)
        requires
            old(self).wf(),
        ensures
            final(self).wf(),
            actions::out_v(final(self)@, r) == old(self)@.whitespace_cycled(),
            r.action matches Action::LoadFile(l) ==> l.file_index < final(self)@.changeset.files.len()
                && !l.enter,
    {
        let selected = self.selected_file_index();
        let mut msg = "whitespace: ".to_owned();
        let (mode, hunk): (ViewMode, usize) = match &mut self.diff {
            None => {
                return Effects::quiet();
            },
            Some(d) => {
                let hunk: usize = d.current_hunk();
                d.set_whitespace();
                msg.append(d.whitespace.label());
                if selected.is_none() {
                    d.anchor(hunk);
                }
                (d.mode, hunk)
            },
        };
        self.flash = Some(msg);
        self.request_file(mode, Some(hunk), false)
    }
}

// ---- The working tree ----

impl AppV {
    /// With another changeset, its files grouped and listed anew. What was known of the files is
    /// forgotten, as are the marks.
    pub open spec fn with_changeset(self, cs: ChangesetV) -> AppV {
        AppV {
            changeset: cs,
            grouping: group::build_v(cs.files, self.config),
            ov: (OverviewV { marked: Set::empty(), offset: 0, ..self.ov }).reordered(cs.files),
            facts: None,
            ..self
        }
    }

    /// Asking for the changes of the working tree, with untracked files or without.
    pub open spec fn untracked_toggled(self) -> OutV {
        if !self.changeset.is_working {
            self.said("untracked toggle applies only to --uncommitted"@).quiet()
        } else {
            let show_untracked = !self.show_untracked;
            (AppV { show_untracked, ..self }).asking(
                ActionV::Rebuild { show_untracked, after: AfterV::Toggle },
            )
        }
    }

    /// After the changes of the working tree were read.
    pub open spec fn rebuilt(self, after: AfterV, read: Result<ChangesetV, Seq<char>>) -> AppV {
        match read {
            Ok(cs) => self.with_changeset(cs).said(
                match after {
                    AfterV::Toggle => (if self.show_untracked {
                        "showing untracked files ("@
                    } else {
                        "hiding untracked files ("@
                    }) + text::decimal_v(cs.files.len()) + " total)"@,
                    AfterV::Commit { summary, count } => "committed "@ + util::plural_v(
                        count as nat,
                        "file"@,
                    ) + " — "@ + summary,
                },
            ),
            Err(e) => match after {
                AfterV::Toggle => (AppV { show_untracked: !self.show_untracked, ..self }).said(
                    "could not refresh: "@ + e,
                ),
                AfterV::Commit { summary, count } => self.said(
                    "committed "@ + summary + ", but refresh failed: "@ + e,
                ),
            },
        }
    }
}

/// What was read of the working tree.
pub open spec fn read_view(read: Result<Changeset, String>) -> Result<ChangesetV, Seq<char>> {
    match read {
        Ok(cs) => Ok(cs.deep_view()),
        Err(e) => Err(e@),
    }
}

impl App {
    /// Shows or hides untracked files, in the view of uncommitted changes.
    pub fn toggle_untracked(&mut self) -> (r: Effects)
        requires
            old(self).wf(),
        ensures
            final(self).wf(),
            actions::out_v(final(self)@, r) == old(self)@.untracked_toggled(),
    {
        if !self.changeset.is_working {
            self.flash = Some("untracked toggle applies only to --uncommitted".to_owned());
            return Effects::quiet();
        }
        self.show_untracked = !self.show_untracked;
        Effects::of(Action::Rebuild { show_untracked: self.show_untracked, after: After::Toggle })
    }

    /// Takes another changeset.
    fn set_changeset(&mut self, cs: Changeset)
        requires
            old(self).wf(),
            group::countable(cs.deep_view().files),
            old(self)@.screen == Screen::Overview,
        ensures
            final(self).wf(),
            final(self)@ == old(self)@.with_changeset(cs.deep_view()),
    {
        let count: usize = cs.files.len();
        let ghost files = cs.deep_view().files;
        proof {
            assert(files.len() == count);
            app::lemma_each_fits(files);
            listing::law_order(files, self@.ov.sort, self@.ov.filter);
        }
        self.grouping = build(&cs.files, self.config.as_ref());
        self.changeset = cs;
        self.facts = None;
        self.ov.marked = HashSet::new();
        self.ov.offset = 0;
        self.ov.reorder(&self.changeset.files);
    }

    /// Takes the changes of the working tree that were asked for, or the error that came instead.
    pub fn rebuild_working(&mut self, after: After, read: Result<Changeset, String>)
        requires
            old(self).wf(),
            old(self)@.screen == Screen::Overview,
            read matches Ok(cs) ==> group::countable(cs.deep_view().files),
        ensures
            final(self).wf(),
            final(self)@ == old(self)@.rebuilt(after.deep_view(), read_view(read)),
    {
        let mut msg = String::new();
        match read {
            Ok(cs) => {
                match &after {
                    After::Toggle => {
                        if self.show_untracked {
                            msg.append("showing untracked files (");
                        } else {
                            msg.append("hiding untracked files (");
                        }
                        msg.append(decimal_usize(cs.files.len()).as_str());
                        msg.append(" total)");
                    },
                    After::Commit { summary, count } => {
                        msg.append("committed ");
                        msg.append(plural(*count, "file").as_str());
                        msg.append(" — ");
                        msg.append(summary.as_str());
                    },
                }
                self.set_changeset(cs);
            },
            Err(e) => {
                match &after {
                    After::Toggle => {
                        self.show_untracked = !self.show_untracked;
                        msg.append("could not refresh: ");
                    },
                    After::Commit { summary, .. } => {
                        msg.append("committed ");
                        msg.append(summary.as_str());
                        msg.append(", but refresh failed: ");
                    },
                }
                msg.append(e.as_str());
            },
        }
        self.flash = Some(msg);
    }
}

// ---- Commits ----

/// The paths of those of the first `k` listed files that are viewed, in the order of the list.
pub open spec fn viewed_paths_v(
    files: Seq<FileV>,
    order: Seq<usize>,
    viewed: Set<u64>,
    k: nat,
) -> Seq<Seq<char>>
    decreases k,
{
    if k == 0 {
        Seq::empty()
    } else {
        let before = viewed_paths_v(files, order, viewed, (k - 1) as nat);
        let f = files[order[k - 1] as int];
        if viewed.contains(f.content_hash) {
            before.push(f.path)
        } else {
            before
        }
    }
}

impl AppV {
    /// The paths of the listed files that are viewed.
    pub open spec fn viewed_paths(self) -> Seq<Seq<char>> {
        viewed_paths_v(
            self.changeset.files,
            self.ov.order,
            self.viewed.set,
            self.ov.order.len(),
        )
    }

    /// With the prompt for a commit message, for the viewed files of the working tree.
    pub open spec fn commit_started(self) -> AppV {
        if !self.changeset.is_working {
            self.said("commit applies only to --uncommitted"@)
        } else if self.viewed_paths().len() == 0 {
            self.said("no reviewed files to commit (mark with v)"@)
        } else {
            AppV {
                commit: CommitV::Prompting(
                    PromptingV { input: Seq::empty(), files: self.viewed_paths(), notice: None },
                ),
                ..self
            }
        }
    }

    /// Asking for the commit, where there is a message.
    pub open spec fn committing(self) -> OutV {
        match self.commit {
            CommitV::Idle => self.quiet(),
            CommitV::Prompting(p) => {
                let message = text::trim_v(p.input);
                if message.len() == 0 {
                    (AppV {
                        commit: self.commit.noticed("enter a commit message"@),
                        ..self
                    }).quiet()
                } else {
                    self.asking(ActionV::Commit { files: p.files, message })
                }
            },
        }
    }

    /// After the commit: asking for the changes of the working tree, or with the error.
    pub open spec fn commit_done(self, result: Result<Seq<char>, Seq<char>>) -> OutV {
        match self.commit {
            CommitV::Idle => self.quiet(),
            CommitV::Prompting(p) => match result {
                Ok(summary) => (AppV { commit: CommitV::Idle, ..self }).asking(
                    ActionV::Rebuild {
                        show_untracked: self.show_untracked,
                        after: AfterV::Commit { summary, count: p.files.len() as int },
                    },
                ),
                Err(e) => (AppV { commit: self.commit.noticed(e), ..self }).quiet(),
            },
        }
    }
}

/// What came of a program: a text, or an error.
pub open spec fn result_view(result: Result<String, String>) -> Result<Seq<char>, Seq<char>> {
    match result {
        Ok(s) => Ok(s@),
        Err(e) => Err(e@),
    }
}

/// A copy of a list of texts.
fn copy_list(list: &Vec<String>) -> (r: Vec<String>)
    ensures
        r.deep_view() == list.deep_view(),
{
    let mut out: Vec<String> = Vec::new();
    let mut i: usize = 0;
    while i < list.len()
        invariant
            i == out@.len() <= list@.len(),
            forall|k: int| 0 <= k < i ==> (#[trigger] out@[k])@ == list@[k]@,
        decreases list@.len() - i,
    {
        out.push(list[i].clone());
        i = i + 1;
    }
    assert(out.deep_view() =~= list.deep_view());
    out
}

impl App {
    /// The paths of the listed files that are viewed.
    fn viewed_paths(&self) -> (r: Vec<String>)
        requires
            self.wf(),
        ensures
            r.deep_view() == self@.viewed_paths(),
    {
        let ghost files = self@.changeset.files;
        let ghost set = self@.viewed.set;
        let mut out: Vec<String> = Vec::new();
        let mut k: usize = 0;
        assert(out.deep_view() =~= Seq::empty());
        while k < self.ov.order.len()
            invariant
                k <= self.ov.order@.len(),
                files == self@.changeset.files,
                set == self@.viewed.set,
                crate::order::keyed(self.ov.order@, files.len()),
                out.deep_view() == viewed_paths_v(files, self.ov.order@, set, k as nat),
            decreases self.ov.order@.len() - k,
        {
            let ghost before = out.deep_view();
            let f: usize = self.ov.order[k];
            assert(self.ov.order@[k as int] < files.len());
            assert(files[f as int] == self.changeset.files@[f as int].deep_view());
            if self.viewed.is_viewed(self.changeset.files[f].content_hash) {
                out.push(self.changeset.files[f].path.clone());
                assert(out.deep_view() =~= before.push(files[f as int].path));
            }
            k = k + 1;
        }
        out
    }

    /// Opens the prompt for a commit message, for the viewed files of the working tree.
    pub fn start_commit(&mut self)
        requires
            old(self).wf(),
            old(self)@.screen == Screen::Overview,
        ensures
            final(self).wf(),
            final(self)@ == old(self)@.commit_started(),
    {
        if !self.changeset.is_working {
            self.flash = Some("commit applies only to --uncommitted".to_owned());
            return ;
        }
        let files = self.viewed_paths();
        if files.len() == 0 {
            self.flash = Some("no reviewed files to commit (mark with v)".to_owned());
            return ;
        }
        self.commit = Commit::prompt(files);
    }

    /// Asks for the commit with the typed message; without one, says so.
    pub fn do_commit(&mut self) -> (r: Effects)
        requires
            old(self).wf(),
        ensures
            final(self).wf(),
            actions::out_v(final(self)@, r) == old(self)@.committing(),
    {
        let (files, message): (Vec<String>, String) = match &self.commit {
            Commit::Idle => {
                return Effects::quiet();
            },
            Commit::Prompting(p) => (copy_list(&p.files), trim(p.input.as_str())),
        };
        if message.as_str().is_empty() {
            self.commit.set_notice("enter a commit message".to_owned());
            return Effects::quiet();
        }
        Effects::of(Action::Commit { files, message })
    }

    /// Takes what came of the commit: a summary, then the changes are read anew; or an error, then
    /// the prompt stays and shows it.
    pub fn commit_done(&mut self, result: Result<String, String>) -> (r: Effects)
        requires
            old(self).wf(),
        ensures
            final(self).wf(),
            actions::out_v(final(self)@, r) == old(self)@.commit_done(result_view(result)),
            r.action is Rebuild ==> final(self)@.screen == Screen::Overview,
    {
        let count: usize = match &self.commit {
            Commit::Idle => {
                return Effects::quiet();
            },
            Commit::Prompting(p) => p.files.len(),
        };
        match result {
            Ok(summary) => {
                self.commit = Commit::Idle;
                Effects::of(
                    Action::Rebuild {
                        show_untracked: self.show_untracked,
                        after: After::Commit { summary, count },
                    },
                )
            },
            Err(e) => {
                self.commit.set_notice(e);
                Effects::quiet()
            },
        }
    }
}

// ---- Explanations ----

/// What the assistant is told of one file.
pub open spec fn file_instruction_v(path: Seq<char>) -> Seq<char> {
    "You are helping review a pull request. Concisely explain this change to `"@ + path
        + "` for the person reviewing it: what it does and why it likely matters. Use a few short bullet points; don't restate the diff line by line."@
}

/// What the assistant is told of a changeset.
pub open spec fn changeset_instruction_v(head: Seq<char>, base: Seq<char>) -> Seq<char> {
    "You are helping review a pull request ("@ + head + " → "@ + base
        + "). Concisely explain what this branch changes overall and why, for the person reviewing it. Lead with a one-sentence summary, then a few short bullets grouped by area."@
}

/// What a changeset is called.
pub open spec fn changeset_target_v(head: Seq<char>, count: nat) -> Seq<char> {
    head + " ("@ + text::decimal_v(count) + " files)"@
}

/// The diffs of the files from `i` on, behind `out`, while that is not too long already.
pub open spec fn diff_text_v(files: Seq<FileV>, blobs: Seq<BlobsV>, i: int, out: Seq<char>) -> Seq<char>
    decreases files.len() - i,
{
    if i >= files.len() {
        out
    } else if text::byte_len_v(out) >= MAX_DIFF_BYTES {
        out + "\n… (remaining files omitted)\n"@
    } else if files[i].special is Binary {
        diff_text_v(files, blobs, i + 1, out + "# "@ + files[i].path + " (binary, not shown)\n"@)
    } else {
        let doc = git::load_file_diff_v(
            files[i],
            blobs[i].old,
            blobs[i].new,
            CONTEXT_RADIUS as nat,
            false,
        );
        diff_text_v(files, blobs, i + 1, out + explain::render_unified_v(files[i].path, doc) + "\n"@)
    }
}

impl AppV {
    /// With the prompt for what to ask, where there is a diff to explain.
    pub open spec fn prompted(
        self,
        instruction: Seq<char>,
        diff_text: Seq<char>,
        target: Seq<char>,
    ) -> AppV {
        if text::trim_v(diff_text).len() == 0 {
            self.said("nothing to explain here"@)
        } else {
            AppV {
                explain: ExplainV::Prompting(
                    GuidanceV {
                        instruction,
                        diff_text,
                        target,
                        input: Seq::empty(),
                        model: self.explain_model,
                    },
                ),
                ..self
            }
        }
    }

    /// Explaining the open file; on the overview, asking for the contents of all files.
    pub open spec fn explaining(self) -> OutV {
        match self.screen {
            Screen::Diff => match self.diff {
                Some(d) => {
                    let path = self.changeset.files[d.file_index].path;
                    self.prompted(
                        file_instruction_v(path),
                        explain::render_unified_v(path, d.doc),
                        path,
                    ).quiet()
                },
                None => self.quiet(),
            },
            Screen::Overview => self.asking(ActionV::ReadChangeset),
        }
    }

    /// Explaining the changeset, given the contents of all files.
    pub open spec fn changeset_explained(self, blobs: Seq<BlobsV>) -> AppV {
        let cs = self.changeset;
        self.prompted(
            changeset_instruction_v(cs.head_name, cs.base_name),
            diff_text_v(cs.files, blobs, 0, Seq::empty()),
            changeset_target_v(cs.head_name, cs.files.len()),
        )
    }
}

impl AppV {
    /// After the assistant was started, or could not be.
    pub open spec fn query_started(self, spawned: Result<(), String>) -> AppV {
        match self.explain {
            ExplainV::Prompting(g) => AppV {
                explain: explain::start_v(self.assistant, g.target, g.model, spawned),
                ..self
            },
            _ => self,
        }
    }
}

impl App {
    /// Opens the prompt for what to ask of a diff; where there is none, says so.
    fn prompt_explain(&mut self, instruction: String, diff_text: String, target: String)
        requires
            old(self).wf(),
        ensures
            final(self).wf(),
            final(self)@ == old(self)@.prompted(instruction@, diff_text@, target@),
    {
        if trim(diff_text.as_str()).as_str().is_empty() {
            self.flash = Some("nothing to explain here".to_owned());
            return ;
        }
        self.explain = Explain::prompt(instruction, diff_text, target, self.explain_model);
    }

    /// Asks what to explain of the open file; on the overview, of the whole changeset.
    pub fn explain_current(&mut self) -> (r: Effects)
        requires
            old(self).wf(),
        ensures
            final(self).wf(),
            actions::out_v(final(self)@, r) == old(self)@.explaining(),
    {
        if matches!(self.screen, Screen::Overview) {
            return Effects::of(Action::ReadChangeset);
        }
        let (path, text): (String, String) = match &self.diff {
            None => {
                return Effects::quiet();
            },
            Some(d) => {
                proof {
                    reveal(DiffV::wf);
                    assert(self@.changeset.files[d.file_index as int]
                        == self.changeset.files@[d.file_index as int].deep_view());
                }
                let path: String = self.changeset.files[d.file_index].path.clone();
                let text = render_unified(path.as_str(), &d.doc);
                (path, text)
            },
        };
        let mut instruction =
            "You are helping review a pull request. Concisely explain this change to `".to_owned();
        instruction.append(path.as_str());
        instruction.append(
            "` for the person reviewing it: what it does and why it likely matters. Use a few short bullet points; don't restate the diff line by line.",
        );
        self.prompt_explain(instruction, text, path);
        Effects::quiet()
    }

    /// The diffs of all files as one text, as far as that is not too long. A binary file is named
    /// only.
    pub fn changeset_diff_text(&self, blobs: &Vec<Blobs>) -> (r: String)
        requires
            blobs@.len() == self@.changeset.files.len(),
        ensures
            r@ == diff_text_v(self@.changeset.files, blobs.deep_view(), 0, Seq::empty()),
    {
        let ghost files = self@.changeset.files;
        let ghost bs = blobs.deep_view();
        let ghost want = diff_text_v(files, bs, 0, Seq::empty());
        let mut out = String::new();
        let mut i: usize = 0;
        while i < self.changeset.files.len()
            invariant
                i <= self.changeset.files@.len() == blobs@.len(),
                files == self@.changeset.files,
                bs == blobs.deep_view(),
                want == diff_text_v(files, bs, 0, Seq::empty()),
                want == diff_text_v(files, bs, i as int, out@),
            decreases self.changeset.files@.len() - i,
        {
            let fc = &self.changeset.files[i];
            assert(files[i as int] == self.changeset.files@[i as int].deep_view());
            assert(bs[i as int] == blobs@[i as int].deep_view());
            if byte_len(out.as_str()) >= MAX_DIFF_BYTES {
                out.append("\n… (remaining files omitted)\n");
                return out;
            }
            if fc.is_binary() {
                out.append("# ");
                out.append(fc.path.as_str());
                out.append(" (binary, not shown)\n");
            } else {
                let fd = Repo::load_file_diff(fc, &blobs[i].old, &blobs[i].new, CONTEXT_RADIUS, false);
                let text = render_unified(fc.path.as_str(), &fd);
                out.append(text.as_str());
                out.append("\n");
            }
            i = i + 1;
        }
        out
    }

    /// Asks what to explain of the changeset, given the contents of all files.
    pub fn explain_changeset(&mut self, blobs: &Vec<Blobs>)
        requires
            old(self).wf(),
            blobs@.len() == old(self)@.changeset.files.len(),
        ensures
            final(self).wf(),
            final(self)@ == old(self)@.changeset_explained(blobs.deep_view()),
    {
        let text = self.changeset_diff_text(blobs);
        let mut instruction = "You are helping review a pull request (".to_owned();
        instruction.append(self.changeset.head_name.as_str());
        instruction.append(" → ");
        instruction.append(self.changeset.base_name.as_str());
        instruction.append(
            "). Concisely explain what this branch changes overall and why, for the person reviewing it. Lead with a one-sentence summary, then a few short bullets grouped by area.",
        );
        let mut target = self.changeset.head_name.clone();
        target.append(" (");
        target.append(decimal_usize(self.changeset.files.len()).as_str());
        target.append(" files)");
        self.prompt_explain(instruction, text, target);
    }

    /// Takes whether the assistant was started.
    pub fn query_started(&mut self, spawned: Result<(), String>)
        requires
            old(self).wf(),
        ensures
            final(self).wf(),
            final(self)@ == old(self)@.query_started(spawned),
    {
        let (target, model): (String, Option<ExplainModel>) = match &self.explain {
            Explain::Prompting(g) => (g.target.clone(), g.model),
            _ => {
                return ;
            },
        };
        self.explain = Explain::start(&self.assistant, target, model, spawned);
    }
}

} // verus!
