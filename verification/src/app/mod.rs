//! The state of the application and what each key does to it.
//!
//! What the state machine cannot do itself, to read blobs, to run a program, to write a file, it
//! hands out as an [`Action`]. The caller performs it and hands the outcome back.
pub mod actions;
pub mod bindings;
pub mod coverage;
pub mod keys;
pub mod laws;
pub mod listing;
pub mod marks;
pub mod motion;
pub mod opening;
pub mod pairing;
pub mod related;
pub mod requests;
pub mod rows;
pub mod session;

use std::collections::HashSet;
use vstd::prelude::*;

use crate::cli;
use crate::git::model;
use crate::group;
use crate::syntax;
use crate::cli::{Cli, ForcedMode};
use crate::commit::{Commit, CommitV};
use crate::config::{Config, ConfigV};
use crate::explain::{Assistant, AssistantV, Explain, ExplainModel, ExplainV};
use crate::git::Repo;
use crate::git::model::{Changeset, ChangesetV, FileV};
use crate::group::{Grouping, GroupingV, build};
use crate::style::Style;
use crate::syntax::{FactsV, FileFacts, Syntax};
use crate::theme::Theme;
use crate::viewed::{Viewed, ViewedV};
use listing::{Overview, OverviewV, SortMode};
use rows::{DiffState, DiffV, ViewMode};

verus! {

broadcast use {vstd::seq_lib::group_seq_properties, vstd::std_specs::hash::group_hash_axioms};

/// What is on screen.
#[derive(Clone, Copy, PartialEq, Eq, Debug, Structural)]
pub enum Screen {
    Overview,
    Diff,
}

/// The width from which on two columns are the default.
pub const SIDE_BY_SIDE_MIN_WIDTH: u16 = 165;

/// The state of the application.
pub struct App {
    pub repo: Repo,
    pub changeset: Changeset,
    pub theme: Theme,
    pub grouping: Grouping,
    pub viewed: Viewed,
    pub screen: Screen,
    pub ov: Overview,
    pub diff: Option<DiffState>,
    pub syntax: Syntax,
    /// What each file defines and uses, found when a diff is first opened.
    pub facts: Option<Vec<FileFacts>>,
    /// The next of the related files to jump to.
    pub related_cursor: usize,
    /// The layout that the command line asks for.
    pub forced_mode: Option<ForcedMode>,
    /// The layout that the user chose; from then on the width no longer decides.
    pub mode_override: Option<ViewMode>,
    pub show_help: bool,
    pub show_commits: bool,
    /// The query for an explanation.
    pub explain: Explain,
    /// The prompt for a commit message.
    pub commit: Commit,
    /// The model to ask, from the configuration.
    pub explain_model: Option<ExplainModel>,
    /// The configuration, kept to group the files anew when they change.
    pub config: Option<Config>,
    /// Are untracked files shown, in the view of uncommitted changes?
    pub show_untracked: bool,
    /// Is a search being typed?
    pub diff_searching: bool,
    /// The first key of a sequence of two.
    pub pending: Option<char>,
    /// A message for the footer, until the next key.
    pub flash: Option<String>,
    /// The width of the terminal when it was last drawn.
    pub width: u16,
    pub should_quit: bool,
    /// Who is asked for explanations.
    pub assistant: Assistant,
}

/// The mathematical value of an [`App`].
#[verifier::ext_equal]
pub ghost struct AppV {
    pub repo: Repo,
    pub changeset: ChangesetV,
    pub theme: Theme,
    pub grouping: GroupingV,
    pub viewed: ViewedV,
    pub screen: Screen,
    pub ov: OverviewV,
    pub diff: Option<DiffV>,
    pub styles: Seq<Style>,
    pub facts: Option<Seq<FactsV>>,
    pub related_cursor: int,
    pub forced_mode: Option<ForcedMode>,
    pub mode_override: Option<ViewMode>,
    pub show_help: bool,
    pub show_commits: bool,
    pub explain: ExplainV,
    pub commit: CommitV,
    pub explain_model: Option<ExplainModel>,
    pub config: Option<ConfigV>,
    pub show_untracked: bool,
    pub diff_searching: bool,
    pub pending: Option<char>,
    pub flash: Option<Seq<char>>,
    pub width: u16,
    pub should_quit: bool,
    pub assistant: AssistantV,
}

impl View for App {
    type V = AppV;

    open spec fn view(&self) -> AppV {
        AppV {
            repo: self.repo,
            changeset: self.changeset.deep_view(),
            theme: self.theme,
            grouping: self.grouping.deep_view(),
            viewed: self.viewed@,
            screen: self.screen,
            ov: self.ov.deep_view(),
            diff: self.diff.deep_view(),
            styles: self.syntax.styles(),
            facts: self.facts.deep_view(),
            related_cursor: self.related_cursor as int,
            forced_mode: self.forced_mode,
            mode_override: self.mode_override,
            show_help: self.show_help,
            show_commits: self.show_commits,
            explain: self.explain.deep_view(),
            commit: self.commit.deep_view(),
            explain_model: self.explain_model,
            config: match self.config {
                Some(c) => Some(c@),
                None => None,
            },
            show_untracked: self.show_untracked,
            diff_searching: self.diff_searching,
            pending: self.pending,
            flash: self.flash.deep_view(),
            width: self.width,
            should_quit: self.should_quit,
            assistant: self.assistant.deep_view(),
        }
    }
}

/// The open file and those that relate to it are among `n` files.
pub open spec fn shows(d: DiffV, n: nat) -> bool {
    &&& 0 <= d.file_index < n
    &&& forall|i: int|
        0 <= i < d.related.len() ==> 0 <= (#[trigger] d.related[i]).file_index < n
}

impl AppV {
    /// The lists, the open diff and what is known of the files fit the changeset.
    pub open spec fn wf(self) -> bool {
        let n = self.changeset.files.len();
        &&& group::countable(self.changeset.files)
        &&& group::churns_fit(self.grouping.groups)
        &&& self.ov.wf(n)
        &&& self.diff matches Some(d) ==> d.wf()
        &&& self.screen == Screen::Diff ==> (self.diff matches Some(d) && shows(d, n))
        &&& self.facts matches Some(f) ==> f.len() == n
        &&& self.commit is Prompting ==> self.screen == Screen::Overview
    }
}

impl App {
    /// The state is valid, and so is what it holds for highlighting.
    pub open spec fn wf(&self) -> bool {
        self@.wf() && self.syntax.wf()
    }
}

/// Where the lines of all files can be counted, so can those of each.
pub proof fn lemma_each_fits(files: Seq<FileV>)
    requires
        group::countable(files),
    ensures
        listing::each_fits(files),
{
    assert forall|i: int| 0 <= i < files.len() implies (#[trigger] files[i]).additions
        + files[i].deletions <= usize::MAX by {
        model::lemma_totals_prefix(files, i + 1);
        model::lemma_totals_prefix(files, i);
        assert(files.take(i + 1).drop_last() =~= files.take(i));
        assert(files.take(i + 1).last() == files[i]);
    }
}

/// The state at the start.
pub open spec fn start_v(
    repo: Repo,
    changeset: ChangesetV,
    theme: Theme,
    viewed: ViewedV,
    forced_mode: Option<ForcedMode>,
    config: Option<ConfigV>,
    assistant: AssistantV,
) -> AppV {
    AppV {
        repo,
        changeset,
        theme,
        grouping: group::build_v(changeset.files, config),
        viewed,
        screen: Screen::Overview,
        ov: (OverviewV {
            selected: 0,
            offset: 0,
            sort: SortMode::Size,
            filter: Seq::empty(),
            filtering: false,
            order: Seq::empty(),
            marked: Set::empty(),
            viewport_rows: 1,
        }).reordered(changeset.files),
        diff: None,
        styles: syntax::styles_v(theme),
        facts: None,
        related_cursor: 0,
        forced_mode,
        mode_override: None,
        show_help: false,
        show_commits: false,
        explain: ExplainV::Idle,
        commit: CommitV::Idle,
        explain_model: match config {
            Some(c) => c.explain_model,
            None => None,
        },
        config,
        show_untracked: true,
        diff_searching: false,
        pending: None,
        flash: None,
        width: 0,
        should_quit: false,
        assistant,
    }
}

impl App {
    /// The state at the start: the overview, sorted by size. `viewed` is what was saved, `theme` what
    /// fits the terminal, `assistant` who is asked for explanations.
    pub fn new(
        repo: Repo,
        changeset: Changeset,
        cli: &Cli,
        config: Option<Config>,
        theme: Theme,
        viewed: Viewed,
        assistant: Assistant,
    ) -> (r: App)
        requires
            group::countable(changeset.deep_view().files),
        ensures
            r@ == start_v(
                repo,
                changeset.deep_view(),
                theme,
                viewed@,
                cli::forced_mode_v(cli.unified, cli.side_by_side),
                match config {
                    Some(c) => Some(c@),
                    None => None,
                },
                assistant.deep_view(),
            ),
            r.wf(),
    {
        let grouping = build(&changeset.files, config.as_ref());
        let explain_model: Option<ExplainModel> = match &config {
            Some(c) => c.explain_model(),
            None => None,
        };
        let syntax = Syntax::new(&theme);
        let mut ov = Overview {
            selected: 0,
            offset: 0,
            sort: SortMode::Size,
            filter: String::new(),
            filtering: false,
            order: Vec::new(),
            marked: HashSet::new(),
            viewport_rows: 1,
        };
        let ghost files = changeset.deep_view().files;
        let count: usize = changeset.files.len();
        proof {
            assert(files.len() == count);
            lemma_each_fits(files);
            listing::law_order(files, SortMode::Size, Seq::empty());
        }
        ov.reorder(&changeset.files);
        App {
            repo,
            changeset,
            theme,
            grouping,
            viewed,
            screen: Screen::Overview,
            ov,
            diff: None,
            syntax,
            facts: None,
            related_cursor: 0,
            forced_mode: cli.forced_mode(),
            mode_override: None,
            show_help: false,
            show_commits: false,
            explain: Explain::Idle,
            commit: Commit::Idle,
            explain_model,
            config,
            show_untracked: true,
            diff_searching: false,
            pending: None,
            flash: None,
            width: 0,
            should_quit: false,
            assistant,
        }
    }
}

} // verus!
