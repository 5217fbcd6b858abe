//! What the viewer asks for, and what it does with the answer.
use vstd::prelude::*;

use super::actions;
use super::actions::{ActionV, AfterV};
use super::listing;
use super::motion;
use super::opening::Load;
use super::requests;
use super::related::BlobsV;
use super::rows::{DiffV, ViewMode, Whitespace};
use super::{AppV, Screen};
use crate::cli::ForcedMode;
use crate::commit::{CommitV, PromptingV};
use crate::git::model::{ChangesetV, FileV};
use crate::group;
use crate::text;

verus! {

broadcast use vstd::seq_lib::group_seq_properties;

// ---- Opening files ----

/// The layout that a file is opened in: the one chosen by hand, else the one that was asked for at
/// the start, else two columns from 165 columns of the terminal on.
pub proof fn law_initial_layout(app: AppV)
    ensures
        app.mode_override matches Some(m) ==> app.initial_mode() == m,
        app.mode_override is None && app.forced_mode == Some(ForcedMode::Unified)
            ==> app.initial_mode() == ViewMode::Unified,
        app.mode_override is None && app.forced_mode == Some(ForcedMode::SideBySide)
            ==> app.initial_mode() == ViewMode::SideBySide,
        app.mode_override is None && app.forced_mode is None ==> (app.initial_mode()
            == ViewMode::SideBySide <==> app.width >= 165),
{
}

/// Opening asks for the selected file, from its top and in its first layout, and enters the diff;
/// it changes nothing else but where the related files are stepped from.
pub proof fn law_opening(app: AppV)
    ensures
        app.selected_file() matches Some(file_index) ==> {
            &&& app.opening().action == ActionV::LoadFile(
                Load { file_index, mode: app.initial_mode(), anchor: None, enter: true },
            )
            &&& app.opening().app == (AppV { related_cursor: 0, ..app })
        },
        app.selected_file() is None ==> app.opening() == app.quiet(),
        !app.opening().save_viewed,
{
}

/// Stepping to another file selects the neighbour in the list and asks for it in the layout of the
/// open one; at the end of the list nothing happens. A step forth and one back return.
pub proof fn law_file_steps(app: AppV)
    requires
        0 <= app.ov.selected < app.ov.order.len(),
    ensures
        app.ov.selected + 1 < app.ov.order.len() ==> {
            let out = app.file_changed(1);
            &&& out.app == (AppV {
                ov: listing::OverviewV { selected: app.ov.selected + 1, ..app.ov },
                related_cursor: 0,
                ..app
            })
            &&& out.action == ActionV::LoadFile(
                Load {
                    file_index: app.ov.order[app.ov.selected + 1],
                    mode: app.open_mode(),
                    anchor: None,
                    enter: false,
                },
            )
            &&& out.app.file_changed(-1).app == (AppV { related_cursor: 0, ..app })
        },
        app.ov.selected > 0 ==> {
            let out = app.file_changed(-1);
            &&& out.app.ov.selected == app.ov.selected - 1
            &&& out.action == ActionV::LoadFile(
                Load {
                    file_index: app.ov.order[app.ov.selected - 1],
                    mode: app.open_mode(),
                    anchor: None,
                    enter: false,
                },
            )
        },
        app.ov.selected + 1 == app.ov.order.len() ==> app.file_changed(1) == app.quiet(),
        app.ov.selected == 0 ==> app.file_changed(-1) == app.quiet(),
{
}

/// Stepping through the related files goes to each in turn, and from the last to the first; going
/// back goes to the one before.
pub proof fn law_related_steps(d: DiffV, cursor: int)
    requires
        d.related.len() > 0,
        0 <= cursor < d.related.len(),
    ensures
        ({
            let n = d.related.len() as int;
            let next = if cursor + 1 == n {
                0
            } else {
                cursor + 1
            };
            let previous = if cursor == 0 {
                n - 1
            } else {
                cursor - 1
            };
            &&& d.next_related(cursor, 1) == Some((d.related[cursor].file_index as usize, next))
            &&& d.next_related(cursor, -1) == Some(
                (d.related[previous].file_index as usize, cursor),
            )
        }),
{
    let n = d.related.len() as int;
    vstd::arithmetic::div_mod::lemma_small_mod(cursor as nat, n as nat);
    if cursor + 1 < n {
        vstd::arithmetic::div_mod::lemma_small_mod((cursor + 1) as nat, n as nat);
    } else {
        vstd::arithmetic::div_mod::lemma_mod_self_0(n);
    }
    if cursor == 0 {
        vstd::arithmetic::div_mod::lemma_small_mod((n - 1) as nat, n as nat);
        vstd::arithmetic::div_mod::lemma_mod_self_0(n);
    } else {
        vstd::arithmetic::div_mod::lemma_mod_add_multiples_vanish(cursor - 1, n);
        vstd::arithmetic::div_mod::lemma_small_mod((cursor - 1) as nat, n as nat);
    }
}

/// Jumping to a related file selects it and asks for it in the layout of the open one; where the
/// list does not show it, or there is none, nothing is asked for and a message says so.
pub proof fn law_related_jump(app: AppV, dir: int)
    requires
        app.diff is Some,
    ensures
        ({
            let d = app.diff->0;
            let out = app.related_jumped(dir);
            match d.next_related(app.related_cursor, dir) {
                Some((target, cursor)) => if app.ov.order.contains(target) {
                    &&& out.app.selected_file() == Some(target)
                    &&& out.action == ActionV::LoadFile(
                        Load { file_index: target, mode: d.mode, anchor: None, enter: false },
                    )
                    &&& out.app.related_cursor == cursor
                    &&& out.app.ov.order == app.ov.order
                } else {
                    &&& out.action == ActionV::Nothing
                    &&& out.app.ov == app.ov
                    &&& out.app.flash is Some
                },
                None => out.action == ActionV::Nothing && out.app.ov == app.ov
                    && out.app.flash is Some,
            }
        }),
{
    let d = app.diff->0;
    if let Some((target, cursor)) = d.next_related(app.related_cursor, dir) {
        if app.ov.order.contains(target) {
            let k = app.ov.order.index_of(target);
            assert(0 <= k < app.ov.order.len() && app.ov.order[k] == target);
        }
    }
}

/// Marking a file in the diff view as viewed adds its hash, and no other, to those viewed, and has
/// it saved; the next file is then asked for, and behind the last one the list is shown.
pub proof fn law_viewing_on(app: AppV)
    requires
        0 <= app.ov.selected < app.ov.order.len(),
    ensures
        ({
            let out = app.viewed_advanced();
            let f = app.ov.order[app.ov.selected];
            let hash = app.changeset.files[f as int].content_hash;
            &&& out.save_viewed
            &&& out.app.viewed.set == app.viewed.set.insert(hash)
            &&& out.app.viewed.dirty <==> app.viewed.dirty || !app.viewed.set.contains(hash)
            &&& app.ov.selected + 1 < app.ov.order.len() ==> {
                &&& out.app.ov.selected == app.ov.selected + 1
                &&& out.action == ActionV::LoadFile(
                    Load {
                        file_index: app.ov.order[app.ov.selected + 1],
                        mode: app.open_mode(),
                        anchor: None,
                        enter: false,
                    },
                )
                &&& out.app.screen == app.screen
            }
            &&& app.ov.selected + 1 == app.ov.order.len() ==> {
                &&& out.app.ov == app.ov
                &&& out.action == ActionV::Nothing
                &&& out.app.screen == Screen::Overview
            }
        }),
{
}

/// Cycling whitespace asks for the open file again, in its layout and at its hunk, with the next
/// way to treat whitespace: shown, then dimmed, then ignored.
pub proof fn law_whitespace_is_cycled(app: AppV)
    requires
        app.diff is Some,
        app.selected_file() is Some,
        app.diff->0.current_hunk() >= 0,
    ensures
        ({
            let d = app.diff->0;
            let out = app.whitespace_cycled();
            &&& out.app.whitespace() == (match d.whitespace {
                Whitespace::Show => Whitespace::Dim,
                Whitespace::Dim => Whitespace::Ignore,
                Whitespace::Ignore => Whitespace::Show,
            })
            &&& out.action == ActionV::LoadFile(
                Load {
                    file_index: app.selected_file()->0,
                    mode: d.mode,
                    anchor: Some(d.current_hunk() as usize),
                    enter: false,
                },
            )
            &&& out.app.ov == app.ov
        }),
{
}

/// What is shown once a file was read: that file, in the layout that was asked for and with the
/// whitespace as before; the diff view where it was to be entered; and everything else as it was.
pub proof fn law_loaded(app: AppV, load: Load, b: BlobsV, all: Option<Seq<BlobsV>>)
    ensures
        ({
            let after = app.loaded(load, b, all);
            &&& after.diff matches Some(d) && d.file_index == load.file_index && d.mode == load.mode
                && d.whitespace == app.whitespace() && (load.anchor is None ==> d.scroll == 0)
            &&& after.screen == (if load.enter {
                Screen::Diff
            } else {
                app.screen
            })
            &&& after.ov == app.ov && after.viewed == app.viewed && after.changeset
                == app.changeset && after.mode_override == app.mode_override
            &&& app.facts is Some ==> after.facts == app.facts
        }),
{
    super::opening::law_opened_afresh(
        app.changeset.files[load.file_index as int],
        load.file_index as int,
        b,
        load.mode,
        app.whitespace(),
        app.styles,
    );
}

// ---- The layout ----

/// Switching the layout by hand pins the other one, and keeps the hunk; switching again returns.
/// A pinned layout stays whatever the width; one that is not follows it.
pub proof fn law_layouts(app: AppV)
    ensures
        app.diff matches Some(d) ==> {
            &&& app.mode_toggled().diff matches Some(e) && e.mode != d.mode
            &&& app.mode_toggled().mode_override is Some
            &&& app.mode_toggled().initial_mode() != d.mode
            &&& app.mode_toggled().mode_toggled().diff matches Some(e) && e.mode == d.mode
        },
        app.forced_mode is Some || app.mode_override is Some ==> app.reconciled() == app,
        app.forced_mode is None && app.mode_override is None ==> (app.reconciled().diff matches Some(
            d,
        ) ==> (d.mode == ViewMode::SideBySide <==> app.width >= 165)),
        app.reconciled().mode_override == app.mode_override,
{
}

// ---- The changes that are shown ----

/// With other changes the marks and what was known of the files are gone, the groups are those of
/// the new files, and the list shows those of them that pass the filter, in the order as before.
pub proof fn law_other_changes(app: AppV, cs: ChangesetV)
    requires
        cs.files.len() <= usize::MAX,
    ensures
        ({
            let after = app.with_changeset(cs);
            &&& after.changeset == cs
            &&& after.ov.marked == Set::<usize>::empty()
            &&& after.ov.sort == app.ov.sort && after.ov.filter == app.ov.filter
            &&& after.ov.offset == 0
            &&& after.facts is None
            &&& after.grouping == group::build_v(cs.files, app.config)
            &&& after.ov.order == listing::order_v(cs.files, app.ov.sort, app.ov.filter)
            &&& after.viewed == app.viewed && after.repo == app.repo && after.screen == app.screen
        }),
{
}

/// Untracked files are only shown or hidden over uncommitted changes. That asks for the changes
/// again, and where they cannot be read leaves everything as it was, but for a message.
pub proof fn law_untracked(app: AppV, error: Seq<char>, cs: ChangesetV)
    ensures
        !app.changeset.is_working ==> app.untracked_toggled().action == ActionV::Nothing
            && app.untracked_toggled().app == (AppV {
            flash: app.untracked_toggled().app.flash,
            ..app
        }),
        app.changeset.is_working ==> {
            let out = app.untracked_toggled();
            &&& out.action == (ActionV::Rebuild {
                show_untracked: !app.show_untracked,
                after: AfterV::Toggle,
            })
            &&& out.app.rebuilt(AfterV::Toggle, Err(error)) == (AppV {
                flash: Some("could not refresh: "@ + error),
                ..app
            })
            &&& out.app.rebuilt(AfterV::Toggle, Ok(cs)).show_untracked == !app.show_untracked
            &&& out.app.rebuilt(AfterV::Toggle, Ok(cs)).changeset == cs
        },
{
}

// ---- Committing ----

/// The paths that a commit is prompted for are those of the listed files that were viewed.
pub proof fn lemma_viewed_paths(
    files: Seq<FileV>,
    order: Seq<usize>,
    viewed: Set<u64>,
    k: nat,
    p: Seq<char>,
)
    requires
        k <= order.len(),
    ensures
        requests::viewed_paths_v(files, order, viewed, k).contains(p) <==> exists|i: int|
            0 <= i < k && files[(#[trigger] order[i]) as int].path == p && viewed.contains(
                files[order[i] as int].content_hash,
            ),
        requests::viewed_paths_v(files, order, viewed, k).len() <= k,
    decreases k,
{
    if k > 0 {
        let j = (k - 1) as nat;
        lemma_viewed_paths(files, order, viewed, j, p);
        let before = requests::viewed_paths_v(files, order, viewed, j);
        let all = requests::viewed_paths_v(files, order, viewed, k);
        let f = files[order[k - 1] as int];
        if before.contains(p) {
            let m = choose|m: int| 0 <= m < before.len() && before[m] == p;
            assert(all[m] == p);
            let i = choose|i: int|
                0 <= i < j && files[(#[trigger] order[i]) as int].path == p && viewed.contains(
                    files[order[i] as int].content_hash,
                );
            assert(files[order[i] as int].path == p);
        }
        if f.path == p && viewed.contains(f.content_hash) {
            assert(all[all.len() - 1] == p);
        }
        if all.contains(p) && !before.contains(p) {
            let m = choose|m: int| 0 <= m < all.len() && all[m] == p;
            if m < before.len() {
                assert(before[m] == p);
            }
            assert(files[order[k - 1] as int].path == p);
        }
    }
}

/// A commit is prompted for only over uncommitted changes of which some listed file was viewed, and
/// then for just those files.
pub proof fn law_commit_prompt(app: AppV, p: Seq<char>)
    requires
        app.commit is Idle,
    ensures
        app.commit_started().commit is Prompting <==> app.changeset.is_working && (exists|i: int|
            0 <= i < app.ov.order.len() && app.viewed.set.contains(
                app.changeset.files[(#[trigger] app.ov.order[i]) as int].content_hash,
            )),
        app.commit_started().commit matches CommitV::Prompting(g) ==> {
            &&& g.input.len() == 0
            &&& g.notice is None
            &&& g.files.contains(p) <==> exists|i: int|
                0 <= i < app.ov.order.len()
                    && app.changeset.files[(#[trigger] app.ov.order[i]) as int].path == p
                    && app.viewed.set.contains(
                    app.changeset.files[app.ov.order[i] as int].content_hash,
                )
        },
        app.commit_started().commit is Idle ==> app.commit_started().flash is Some,
{
    let files = app.changeset.files;
    let order = app.ov.order;
    let paths = app.viewed_paths();
    lemma_viewed_paths(files, order, app.viewed.set, order.len(), p);
    if paths.len() > 0 {
        lemma_viewed_paths(files, order, app.viewed.set, order.len(), paths[0]);
        assert(paths.contains(paths[0]));
    }
    if exists|i: int|
        0 <= i < order.len() && app.viewed.set.contains(
            files[(#[trigger] order[i]) as int].content_hash,
        ) {
        let i = choose|i: int|
            0 <= i < order.len() && app.viewed.set.contains(
                files[(#[trigger] order[i]) as int].content_hash,
            );
        let q = files[order[i] as int].path;
        lemma_viewed_paths(files, order, app.viewed.set, order.len(), q);
        assert(paths.contains(q));
    }
}

/// A commit is made with the message as typed, without whitespace around it, and of the files that
/// were prompted for; a blank message is refused. A commit that fails leaves the prompt as it was
/// but for a notice; one that succeeds closes it and asks for the changes again.
pub proof fn law_commits(app: AppV, g: PromptingV, summary: Seq<char>, error: Seq<char>)
    requires
        app.commit == CommitV::Prompting(g),
    ensures
        ({
            let message = text::trim_v(g.input);
            let out = app.committing();
            let done = app.commit_done(Ok(summary));
            let failed = app.commit_done(Err(error));
            &&& message.len() > 0 ==> out.app == app && out.action == (ActionV::Commit {
                files: g.files,
                message,
            })
            &&& message.len() == 0 ==> out.action == ActionV::Nothing
            &&& message.len() == 0 ==> (out.app.commit matches CommitV::Prompting(h) && h == (
            PromptingV { notice: h.notice, ..g }) && h.notice is Some)
            &&& done.app.commit is Idle
            &&& done.action == (ActionV::Rebuild {
                show_untracked: app.show_untracked,
                after: AfterV::Commit { summary, count: g.files.len() as int },
            })
            &&& failed.action == ActionV::Nothing
            &&& failed.app == (AppV {
                commit: CommitV::Prompting(PromptingV { notice: Some(error), ..g }),
                ..app
            })
        }),
{
}

/// Typing and taking back leave the prompt's text as it was.
pub proof fn law_commit_typing(g: PromptingV, c: char)
    ensures
        CommitV::Prompting(g).typed(c) matches CommitV::Prompting(h) && h.input == g.input.push(c)
            && h.files == g.files && h.notice is None,
        CommitV::Prompting(g).typed(c).untyped() == CommitV::Prompting(
            PromptingV { notice: None, ..g },
        ),
{
    assert(g.input.push(c).drop_last() =~= g.input);
}

// ---- Counting what was viewed ----

/// How many files were viewed: none of no file, and of two lists the sum of theirs; marking a file
/// never lowers it, and all count once all hashes are in.
pub proof fn law_viewed_count(a: Seq<FileV>, b: Seq<FileV>, viewed: Set<u64>, hash: u64)
    ensures
        actions::viewed_count_v(a + b, viewed) == actions::viewed_count_v(a, viewed)
            + actions::viewed_count_v(b, viewed),
        actions::viewed_count_v(a, viewed) <= a.len(),
        actions::viewed_count_v(a, viewed) <= actions::viewed_count_v(a, viewed.insert(hash)),
        (forall|i: int| 0 <= i < a.len() ==> viewed.contains((#[trigger] a[i]).content_hash))
            <==> actions::viewed_count_v(a, viewed) == a.len(),
    decreases a.len() + b.len(),
{
    if b.len() > 0 {
        law_viewed_count(a, b.drop_last(), viewed, hash);
        assert((a + b).drop_last() =~= a + b.drop_last());
        assert((a + b).last() == b.last());
    } else {
        assert(a + b =~= a);
        if a.len() > 0 {
            let init = a.drop_last();
            law_viewed_count(init, b, viewed, hash);
            if forall|i: int| 0 <= i < a.len() ==> viewed.contains((#[trigger] a[i]).content_hash) {
                assert forall|i: int| 0 <= i < init.len() implies viewed.contains(
                    (#[trigger] init[i]).content_hash,
                ) by {
                    assert(init[i] == a[i]);
                }
                assert(viewed.contains(a[a.len() - 1].content_hash));
            }
            if actions::viewed_count_v(a, viewed) == a.len() {
                assert forall|i: int| 0 <= i < a.len() implies viewed.contains(
                    (#[trigger] a[i]).content_hash,
                ) by {
                    if i < init.len() {
                        assert(init[i] == a[i]);
                    }
                }
            }
        }
    }
}

// ---- Folds ----

/// Opening a fold opens the one nearest to the top row, and of two as near the earlier one; the
/// others stay as they are, and where there is none nothing changes.
pub proof fn law_nearest_fold_opens(d: DiffV, i: int)
    requires
        0 <= i < d.rows.len(),
        d.rows[i] is Fold,
        forall|j: int|
            0 <= j < d.rows.len() && (#[trigger] d.rows[j]) is Fold ==> motion::apart(i, d.scroll)
                <= motion::apart(j, d.scroll) && (j < i ==> motion::apart(i, d.scroll)
                < motion::apart(j, d.scroll)),
    ensures
        d.fold_expanded() == (DiffV {
            expanded: d.expanded.insert(d.rows[i]->Fold_start),
            ..d
        }).rebuilt(),
{
    assert(motion::is_nearest_fold(d.rows, d.scroll, i));
    let k = choose|k: int| motion::is_nearest_fold(d.rows, d.scroll, k);
    assert(motion::is_nearest_fold(d.rows, d.scroll, k));
    assert(d.rows[k] is Fold && d.rows[i] is Fold);
}

/// Without a fold there is nothing to open.
pub proof fn law_no_fold_to_open(d: DiffV)
    requires
        motion::no_folds(d.rows),
    ensures
        d.fold_expanded() == d,
{
    if exists|i: int| motion::is_nearest_fold(d.rows, d.scroll, i) {
        let k = choose|k: int| motion::is_nearest_fold(d.rows, d.scroll, k);
        assert(!(d.rows[k] is Fold));
    }
}

// ---- At the start ----

/// At the start the list is shown, sorted by size and without a filter, from its first row; nothing
/// is marked, open, asked for or pinned; and what was viewed is as it was read.
pub proof fn law_start(
    repo: crate::git::Repo,
    cs: ChangesetV,
    theme: crate::theme::Theme,
    viewed: crate::viewed::ViewedV,
    forced: Option<ForcedMode>,
    config: Option<crate::config::ConfigV>,
    assistant: crate::explain::AssistantV,
)
    ensures
        ({
            let s = super::start_v(repo, cs, theme, viewed, forced, config, assistant);
            &&& s.screen == Screen::Overview && s.diff is None && s.facts is None
            &&& s.ov.selected == 0 && s.ov.offset == 0
            &&& s.ov.marked == Set::<usize>::empty()
            &&& s.ov.sort == listing::SortMode::Size && s.ov.filter.len() == 0
            &&& s.ov.order == listing::order_v(cs.files, listing::SortMode::Size, Seq::empty())
            &&& super::bindings::resting(s)
            &&& s.mode_override is None && s.forced_mode == forced
            &&& s.viewed == viewed && s.changeset == cs
            &&& s.show_untracked && !s.should_quit
            &&& s.grouping == group::build_v(cs.files, config)
        }),
{
}

// ---- Searching ----

/// A row matches where one of the lines that it shows holds what is searched for; folds and
/// separators never do.
pub proof fn law_matching_rows(
    lines: Seq<crate::git::model::LineV>,
    needle: Seq<char>,
    row: super::rows::DisplayRow,
)
    ensures
        motion::row_matches_v(lines, needle, row) <==> match row {
            super::rows::DisplayRow::Line { idx } => text::contains_v(
                text::lowercase(lines[idx as int].content()),
                needle,
            ),
            super::rows::DisplayRow::SideLine { left, right } => {
                ||| left is Some && text::contains_v(
                    text::lowercase(lines[left->0 as int].content()),
                    needle,
                )
                ||| right is Some && text::contains_v(
                    text::lowercase(lines[right->0 as int].content()),
                    needle,
                )
            },
            _ => false,
        },
{
}

/// Going to another match says which one it is; without matches a message says so, and nothing
/// moves.
pub proof fn law_match_messages(app: AppV, d: DiffV, dir: int)
    requires
        app.diff == Some(d),
    ensures
        d.matches.len() == 0 ==> app.search_jumped(dir).diff == app.diff && app.search_jumped(
            dir,
        ).flash is Some,
        d.matches.len() > 0 ==> app.search_jumped(dir).diff == Some(d.match_jumped(dir)),
        d.matches.len() > 0 ==> app.search_jumped(dir).flash == Some(
            "match "@ + text::decimal_v((d.match_jumped(dir).match_idx + 1) as nat) + "/"@
                + text::decimal_v(d.matches.len()),
        ),
{
}

// ---- Explaining ----

/// What one file adds to the text of a changeset.
pub open spec fn part_v(f: FileV, b: BlobsV) -> Seq<char> {
    if f.special is Binary {
        "# "@ + f.path + " (binary, not shown)\n"@
    } else {
        crate::explain::render_unified_v(
            f.path,
            crate::git::load_file_diff_v(f, b.old, b.new, 3, false),
        ) + "\n"@
    }
}

/// What the files from `i` on add.
pub open spec fn parts_v(files: Seq<FileV>, blobs: Seq<BlobsV>, i: int) -> Seq<char>
    decreases files.len() - i,
{
    if i >= files.len() {
        Seq::empty()
    } else {
        part_v(files[i], blobs[i]) + parts_v(files, blobs, i + 1)
    }
}

/// The text of a changeset is that of its files one after the other, as long as it takes fewer than
/// 61440 bytes; it always starts with what was there before.
pub proof fn law_changeset_text(files: Seq<FileV>, blobs: Seq<BlobsV>, i: int, out: Seq<char>)
    requires
        0 <= i <= files.len(),
    ensures
        text::byte_len_v(out + parts_v(files, blobs, i)) < 61440 ==> requests::diff_text_v(
            files,
            blobs,
            i,
            out,
        ) == out + parts_v(files, blobs, i),
        out.is_prefix_of(requests::diff_text_v(files, blobs, i, out)),
        i < files.len() && text::byte_len_v(out) >= 61440 ==> requests::diff_text_v(
            files,
            blobs,
            i,
            out,
        ) == out + "\n… (remaining files omitted)\n"@,
    decreases files.len() - i,
{
    let all = requests::diff_text_v(files, blobs, i, out);
    if i < files.len() {
        let part = part_v(files[i], blobs[i]);
        let rest = parts_v(files, blobs, i + 1);
        let whole = out + parts_v(files, blobs, i);
        text::lemma_start_fits(whole, out.len() as int);
        assert(whole.take(out.len() as int) =~= out);
        if text::byte_len_v(out) < 61440 {
            let next = if files[i].special is Binary {
                out + "# "@ + files[i].path + " (binary, not shown)\n"@
            } else {
                let doc = crate::git::load_file_diff_v(
                    files[i],
                    blobs[i].old,
                    blobs[i].new,
                    3,
                    false,
                );
                out + crate::explain::render_unified_v(files[i].path, doc) + "\n"@
            };
            assert(next =~= out + part);
            law_changeset_text(files, blobs, i + 1, next);
            assert(next + rest =~= whole);
            assert(all == requests::diff_text_v(files, blobs, i + 1, next));
            assert(all.subrange(0, next.len() as int) =~= next);
        }
        assert(all.subrange(0, out.len() as int) =~= out);
    } else {
        assert(out + parts_v(files, blobs, i) =~= out);
        assert(all.subrange(0, out.len() as int) =~= out);
    }
}

/// Asking for an explanation prompts for guidance with the diff at hand: that of the open file in
/// the diff view, that of all files in the list. Without a diff nothing is prompted for.
pub proof fn law_explaining(app: AppV, d: DiffV, blobs: Seq<BlobsV>)
    requires
        app.explain is Idle,
        app.diff == Some(d),
    ensures
        app.screen == Screen::Overview ==> app.explaining() == app.asking(ActionV::ReadChangeset),
        app.screen == Screen::Diff ==> app.explaining().action == ActionV::Nothing,
        app.screen == Screen::Diff ==> (app.explaining().app.explain matches
            crate::explain::ExplainV::Prompting(g) ==> g.target
            == app.changeset.files[d.file_index].path && g.diff_text
            == crate::explain::render_unified_v(g.target, d.doc) && g.input.len() == 0 && g.model
            == app.explain_model),
        app.changeset_explained(blobs).explain matches crate::explain::ExplainV::Prompting(g)
            ==> g.diff_text == requests::diff_text_v(
            app.changeset.files,
            blobs,
            0,
            Seq::empty(),
        ) && g.target == app.changeset.head_name + " ("@ + text::decimal_v(
            app.changeset.files.len(),
        ) + " files)"@,
        text::trim_v(
            requests::diff_text_v(app.changeset.files, blobs, 0, Seq::empty()),
        ).len() == 0 <==> app.changeset_explained(blobs).explain is Idle,
{
}

/// What is known of each file is read from that file's own contents.
pub proof fn law_facts_by_file(files: Seq<FileV>, blobs: Seq<BlobsV>, i: int)
    requires
        0 <= i < files.len(),
    ensures
        super::related::all_facts_v(files, blobs).len() == files.len(),
        super::related::all_facts_v(files, blobs)[i] == super::related::file_facts_v(
            files[i],
            blobs[i],
        ),
{
}

/// What is said once the changes were read again: how many files there are, or how many were
/// committed and as what; and where they could not be read, why.
pub proof fn law_refresh_messages(
    app: AppV,
    cs: ChangesetV,
    summary: Seq<char>,
    count: int,
    error: Seq<char>,
)
    requires
        count >= 0,
    ensures
        app.rebuilt(AfterV::Commit { summary, count }, Ok(cs)).flash == Some(
            "committed "@ + crate::util::plural_v(count as nat, "file"@) + " — "@ + summary,
        ),
        app.rebuilt(AfterV::Commit { summary, count }, Ok(cs)).changeset == cs,
        app.rebuilt(AfterV::Commit { summary, count }, Err(error)).flash == Some(
            "committed "@ + summary + ", but refresh failed: "@ + error,
        ),
        app.rebuilt(AfterV::Commit { summary, count }, Err(error)).changeset == app.changeset,
        app.rebuilt(AfterV::Toggle, Ok(cs)).flash == Some(
            (if app.show_untracked {
                "showing untracked files ("@
            } else {
                "hiding untracked files ("@
            }) + text::decimal_v(cs.files.len()) + " total)"@,
        ),
{
}

} // verus!
