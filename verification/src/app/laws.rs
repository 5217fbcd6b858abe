//! What holds of every key, in every state.
use vstd::prelude::*;

use super::actions;
use super::keys;
use super::actions::{ActionV, OutV};
use super::keys::{Key, KeyCode};
use super::AppV;
use crate::commit::CommitV;
use crate::explain::ExplainV;

verus! {

broadcast use vstd::seq_lib::group_seq_properties;

// ---- What is written, and when ----

/// The changes that are shown stay as they are; nothing is committed; no query is started; and a
/// commit message is only prompted for where it was before, or over uncommitted changes.
pub open spec fn reads_only(before: AppV, out: OutV) -> bool {
    &&& out.app.repo == before.repo
    &&& out.app.changeset == before.changeset
    &&& !(out.action is Commit)
    &&& !(out.action is RunQuery)
    &&& !(out.action is SaveAnswer)
    &&& out.app.commit is Prompting ==> before.commit is Prompting || before.changeset.is_working
}

proof fn lemma_sequence_reads(app: AppV, prefix: char, key: Key)
    ensures
        app.sequence(prefix, key) matches Some(out) ==> reads_only(app, out),
{
    reveal(AppV::sequence);
    reveal(AppV::sequence_within);
    reveal(AppV::sequence_across);
}

proof fn lemma_overview_reads(app: AppV, key: Key)
    ensures
        reads_only(app, app.overview_key(key)),
{
    reveal(AppV::overview_key);
    reveal(AppV::overview_motion);
    reveal(AppV::overview_command);
}

proof fn lemma_diff_motion_reads(app: AppV, c: char, ctrl: bool)
    ensures
        app.diff_motion(c, ctrl) matches Some(s) ==> reads_only(app, s.quiet()),
{
    reveal(AppV::diff_motion);
}

proof fn lemma_diff_command_reads(app: AppV, c: char)
    ensures
        reads_only(app, app.diff_command(c)),
{
    reveal(AppV::diff_command);
    reveal(AppV::diff_view_change);
    reveal(AppV::diff_search);
    reveal(AppV::diff_loading);
}

proof fn lemma_diff_reads(app: AppV, key: Key)
    ensures
        reads_only(app, app.diff_key(key)),
{
    reveal(AppV::diff_key);
    if let Some(c) = keys::letter_v(key.code) {
        lemma_diff_motion_reads(app, c, key.ctrl);
        lemma_diff_command_reads(app, c);
    }
}

proof fn lemma_fresh_reads(app: AppV, key: Key)
    ensures
        reads_only(app, app.fresh_key(key)),
{
    reveal(AppV::fresh_key);
    lemma_overview_reads(app, key);
    lemma_diff_reads(app, key);
}

/// The viewer only reads, but for three keys that ask for more, all of them Enter: in the prompt for
/// a commit message it commits the files that were viewed when the prompt was opened, in the prompt
/// for an explanation it starts the query, in the prompt for a file name it saves the answer.
pub proof fn law_keys_read_only(app: AppV, key: Key)
    ensures
        app.key(key).app.repo == app.repo,
        app.key(key).app.changeset == app.changeset,
        app.key(key).action is Commit ==> !key.release && key.code == KeyCode::Enter
            && (app.commit matches CommitV::Prompting(p) && app.key(key).action->files == p.files),
        app.key(key).action is RunQuery ==> !key.release && key.code == KeyCode::Enter
            && app.explain is Prompting,
        app.key(key).action is SaveAnswer ==> !key.release && key.code == KeyCode::Enter
            && app.explain is Result,
{
    let s = AppV { flash: None, ..app };
    let t = AppV { pending: None, ..s };
    reveal(AppV::overlay_key);
    reveal(AppV::explain_key);
    reveal(AppV::guidance_key);
    reveal(AppV::running_key);
    reveal(AppV::save_key);
    reveal(AppV::answer_key);
    reveal(AppV::commit_key);
    reveal(AppV::filter_key);
    reveal(AppV::search_key);
    if let Some(prefix) = s.pending {
        lemma_sequence_reads(t, prefix, key);
    }
    lemma_fresh_reads(t, key);
}

/// Committing is only prompted for over uncommitted changes.
pub proof fn law_commits_only_uncommitted(app: AppV, key: Key)
    requires
        app.commit is Prompting ==> app.changeset.is_working,
    ensures
        app.key(key).app.commit is Prompting ==> app.key(key).app.changeset.is_working,
        app.key(key).action is Commit ==> app.changeset.is_working,
{
    let s = AppV { flash: None, ..app };
    let t = AppV { pending: None, ..s };
    reveal(AppV::overlay_key);
    reveal(AppV::explain_key);
    reveal(AppV::guidance_key);
    reveal(AppV::running_key);
    reveal(AppV::save_key);
    reveal(AppV::answer_key);
    reveal(AppV::commit_key);
    reveal(AppV::filter_key);
    reveal(AppV::search_key);
    if let Some(prefix) = s.pending {
        lemma_sequence_reads(t, prefix, key);
    }
    lemma_fresh_reads(t, key);
}

// ---- Overlays ----

/// While an overlay is open it takes every key: the screen under it stays as it is, and nothing
/// quits.
pub proof fn law_overlays_take_keys(app: AppV, key: Key)
    requires
        app.show_help || app.show_commits || !(app.explain is Idle) || !(app.commit is Idle),
    ensures
        app.key(key).app.screen == app.screen,
        app.key(key).app.ov == app.ov,
        app.key(key).app.diff == app.diff,
        app.key(key).app.viewed == app.viewed,
        app.key(key).app.should_quit == app.should_quit,
{
    reveal(AppV::overlay_key);
    reveal(AppV::explain_key);
    reveal(AppV::guidance_key);
    reveal(AppV::running_key);
    reveal(AppV::save_key);
    reveal(AppV::answer_key);
    reveal(AppV::commit_key);
}

/// Escape, or for the help and the list of commits any key, closes an overlay; a query that runs is
/// stopped.
pub proof fn law_escape_closes_overlays(app: AppV, key: Key)
    requires
        !key.release,
        key.code == KeyCode::Esc,
    ensures
        app.show_help ==> !app.key(key).app.show_help,
        !app.show_help && app.show_commits ==> !app.key(key).app.show_commits,
        !app.show_help && !app.show_commits ==> match app.explain {
            ExplainV::Idle => app.key(key).app.commit is Idle,
            ExplainV::Prompting(_) => app.key(key).app.explain is Idle,
            ExplainV::Running(_) => app.key(key).app.explain is Idle && app.key(key).action
                == ActionV::StopQuery,
            ExplainV::Result(a) => match a.save {
                Some(_) => app.key(key).app.explain is Result,
                None => app.key(key).app.explain is Idle,
            },
        },
{
    let s = AppV { flash: None, ..app };
    let t = AppV { pending: None, ..s };
    reveal(AppV::overlay_key);
    reveal(AppV::explain_key);
    reveal(AppV::guidance_key);
    reveal(AppV::running_key);
    reveal(AppV::save_key);
    reveal(AppV::answer_key);
    reveal(AppV::commit_key);
    reveal(AppV::filter_key);
    reveal(AppV::search_key);
    reveal(AppV::fresh_key);
    reveal(AppV::overview_key);
    reveal(AppV::diff_key);
    reveal(AppV::sequence);
    reveal(AppV::sequence_within);
    reveal(AppV::sequence_across);
}

// ---- Viewed marks ----

/// Toggling gives all the files that it is about the same status: viewed where one of them was not,
/// else not viewed.
pub proof fn law_toggling_is_uniform(app: AppV, f: usize)
    requires
        app.ov.targets().contains(f),
    ensures
        app.viewed_toggled().app.viewed.set.contains(
            app.changeset.files[f as int].content_hash,
        ) == actions::any_unviewed_v(app.changeset.files, app.ov.targets(), app.viewed.set),
{
    let files = app.changeset.files;
    let targets = app.ov.targets();
    assert(actions::hashes_v(files, targets).contains(files[f as int].content_hash));
}

/// Toggling the file under the cursor twice leaves the viewed files as they were.
pub proof fn law_toggling_twice(app: AppV)
    requires
        app.ov.marked.is_empty(),
    ensures
        app.viewed_toggled().app.viewed_toggled().app.viewed.set == app.viewed.set,
{
    let files = app.changeset.files;
    let once = app.viewed_toggled().app;
    if let Some(f) = app.ov.selected_file() {
        let targets = app.ov.targets();
        let h = files[f as int].content_hash;
        assert(targets.contains(f));
        assert(actions::hashes_v(files, targets) =~= Set::empty().insert(h));
        assert(once.ov.marked =~= Set::empty());
        assert(once.ov.targets() =~= targets);
        assert(once.viewed_toggled().app.viewed.set =~= app.viewed.set);
    }
}

} // verus!
