//! What each key does.
use vstd::prelude::*;

use super::actions::ActionV;
use super::keys::{Key, KeyCode};
use super::listing::OverviewV;
use super::rows::DiffV;
use super::{AppV, Screen};
use crate::commit::CommitV;
use crate::explain::{ExplainV, GuidanceV};

verus! {

broadcast use vstd::seq_lib::group_seq_properties;

/// Nothing lies over the screen and no key is waited for.
pub open spec fn resting(app: AppV) -> bool {
    &&& !app.show_help && !app.show_commits
    &&& app.explain is Idle && app.commit is Idle
    &&& !app.ov.filtering && !app.diff_searching
    &&& app.pending is None
}

/// A key without `Ctrl`, pressed.
pub open spec fn press(code: KeyCode) -> Key {
    Key { code, ctrl: false, release: false }
}

/// A character typed with `Ctrl`.
pub open spec fn with_ctrl(c: char) -> Key {
    Key { code: KeyCode::Char(c), ctrl: true, release: false }
}

/// A key that reaches the screen is handled by it, with the message of the last key gone.
proof fn lemma_fresh(app: AppV, key: Key)
    requires
        resting(app),
        !key.release,
    ensures
        app.key(key) == (AppV { flash: None, ..app }).fresh_key(key),
{
    reveal(AppV::overlay_key);
    let s = AppV { flash: None, ..app };
    assert(AppV { pending: None, ..s } == s);
}

/// Letting a key go does nothing.
pub proof fn law_release(app: AppV, key: Key)
    requires
        key.release,
    ensures
        app.key(key) == app.quiet(),
{
}

/// On either screen `q` and Ctrl-C quit, and `?` shows the help.
pub proof fn law_keys_everywhere(app: AppV)
    requires
        resting(app),
    ensures
        ({
            let s = AppV { flash: None, ..app };
            &&& app.key(press(KeyCode::Char('q'))) == (AppV { should_quit: true, ..s }).quiet()
            &&& app.key(with_ctrl('c')) == (AppV { should_quit: true, ..s }).quiet()
            &&& app.key(press(KeyCode::Char('?'))) == (AppV { show_help: true, ..s }).quiet()
            &&& app.key(press(KeyCode::Char('e'))) == s.explaining()
        }),
{
    reveal(AppV::fresh_key);
    lemma_fresh(app, press(KeyCode::Char('q')));
    lemma_fresh(app, with_ctrl('c'));
    lemma_fresh(app, press(KeyCode::Char('?')));
    lemma_fresh(app, press(KeyCode::Char('e')));
}

/// In the list `j` and Down go to the next row, `k` and Up to the one before, Ctrl-D and Ctrl-U half
/// a screen on and back, and `G` to the last row.
pub proof fn law_overview_motions(app: AppV)
    requires
        resting(app),
        app.screen == Screen::Overview,
    ensures
        ({
            let s = AppV { flash: None, ..app };
            let half = if app.ov.viewport_rows > 1 {
                app.ov.viewport_rows / 2
            } else {
                0
            };
            &&& app.key(press(KeyCode::Char('j'))) == (AppV { ov: app.ov.moved_by(1), ..s }).quiet()
            &&& app.key(press(KeyCode::Down)) == (AppV { ov: app.ov.moved_by(1), ..s }).quiet()
            &&& app.key(press(KeyCode::Char('k'))) == (AppV { ov: app.ov.moved_by(-1), ..s }).quiet()
            &&& app.key(press(KeyCode::Up)) == (AppV { ov: app.ov.moved_by(-1), ..s }).quiet()
            &&& app.key(with_ctrl('d')) == (AppV { ov: app.ov.moved_by(half), ..s }).quiet()
            &&& app.key(with_ctrl('u')) == (AppV { ov: app.ov.moved_by(-half), ..s }).quiet()
            &&& app.key(press(KeyCode::Char('G'))) == (AppV {
                ov: app.ov.moved_to(app.ov.order.len() as int),
                ..s
            }).quiet()
        }),
{
    reveal(AppV::fresh_key);
    reveal(AppV::overview_key);
    reveal(AppV::overview_motion);
    lemma_fresh(app, press(KeyCode::Char('j')));
    lemma_fresh(app, press(KeyCode::Down));
    lemma_fresh(app, press(KeyCode::Char('k')));
    lemma_fresh(app, press(KeyCode::Up));
    lemma_fresh(app, with_ctrl('d'));
    lemma_fresh(app, with_ctrl('u'));
    lemma_fresh(app, press(KeyCode::Char('G')));
}

/// In the list Enter opens the selected file, `s` sorts by the next thing, a space marks, `/` starts
/// a filter, `v` toggles what was viewed, `t` the untracked files, `C` starts a commit and `c` lists
/// the commits.
pub proof fn law_overview_commands(app: AppV)
    requires
        resting(app),
        app.screen == Screen::Overview,
    ensures
        ({
            let s = AppV { flash: None, ..app };
            &&& app.key(press(KeyCode::Enter)) == s.opening()
            &&& app.key(press(KeyCode::Char('s'))) == (AppV {
                ov: app.ov.resorted(app.changeset.files),
                ..s
            }).quiet()
            &&& app.key(press(KeyCode::Char(' '))) == (AppV {
                ov: app.ov.mark_toggled(),
                ..s
            }).quiet()
            &&& app.key(press(KeyCode::Char('/'))) == (AppV {
                ov: OverviewV { filtering: true, ..app.ov },
                ..s
            }).quiet()
            &&& app.key(press(KeyCode::Char('v'))) == s.viewed_toggled()
            &&& app.key(press(KeyCode::Char('t'))) == s.untracked_toggled()
            &&& app.key(press(KeyCode::Char('C'))) == s.commit_started().quiet()
            &&& app.key(press(KeyCode::Char('c'))) == (AppV { show_commits: true, ..s }).quiet()
            &&& app.key(press(KeyCode::Esc)) == s.quiet()
        }),
{
    reveal(AppV::fresh_key);
    reveal(AppV::overview_key);
    reveal(AppV::overview_motion);
    reveal(AppV::overview_command);
    lemma_fresh(app, press(KeyCode::Enter));
    lemma_fresh(app, press(KeyCode::Char('s')));
    lemma_fresh(app, press(KeyCode::Char(' ')));
    lemma_fresh(app, press(KeyCode::Char('/')));
    lemma_fresh(app, press(KeyCode::Char('v')));
    lemma_fresh(app, press(KeyCode::Char('t')));
    lemma_fresh(app, press(KeyCode::Char('C')));
    lemma_fresh(app, press(KeyCode::Char('c')));
    lemma_fresh(app, press(KeyCode::Esc));
}

/// In the list `g` and then `g` go to the first row.
pub proof fn law_overview_top(app: AppV)
    requires
        resting(app),
        app.screen == Screen::Overview,
    ensures
        ({
            let s = AppV { flash: None, ..app };
            let g = press(KeyCode::Char('g'));
            &&& app.key(g) == (AppV { pending: Some('g'), ..s }).quiet()
            &&& app.key(g).app.key(g) == (AppV { ov: app.ov.moved_to(0), ..s }).quiet()
        }),
{
    reveal(AppV::fresh_key);
    reveal(AppV::overview_key);
    reveal(AppV::overview_motion);
    reveal(AppV::overview_command);
    let g = press(KeyCode::Char('g'));
    let s = AppV { flash: None, ..app };
    lemma_fresh(app, g);
    let t = app.key(g).app;
    assert(t == AppV { pending: Some('g'), ..s });
    reveal(AppV::overlay_key);
    reveal(AppV::sequence);
    assert(AppV { pending: None, ..(AppV { flash: None, ..t }) } == s);
}

/// In the diff view `j`, Down, `k`, Up, Ctrl-D, Ctrl-U and `G` scroll, and `Z` closes a fold.
pub proof fn law_diff_motions(app: AppV, d: DiffV)
    requires
        resting(app),
        app.screen == Screen::Diff,
        app.diff == Some(d),
    ensures
        ({
            let s = AppV { flash: None, ..app };
            let half = if d.viewport_rows > 1 {
                d.viewport_rows / 2
            } else {
                0
            };
            &&& app.key(press(KeyCode::Char('j'))) == s.with_diff(d.scrolled(1)).quiet()
            &&& app.key(press(KeyCode::Down)) == s.with_diff(d.scrolled(1)).quiet()
            &&& app.key(press(KeyCode::Char('k'))) == s.with_diff(d.scrolled(-1)).quiet()
            &&& app.key(press(KeyCode::Up)) == s.with_diff(d.scrolled(-1)).quiet()
            &&& app.key(with_ctrl('d')) == s.with_diff(d.scrolled(half)).quiet()
            &&& app.key(with_ctrl('u')) == s.with_diff(d.scrolled(-half)).quiet()
            &&& app.key(press(KeyCode::Char('G'))) == s.with_diff(
                d.scrolled_to(d.total_rows),
            ).quiet()
            &&& app.key(press(KeyCode::Char('Z'))) == s.with_diff(d.fold_collapsed()).quiet()
        }),
{
    reveal(AppV::fresh_key);
    reveal(AppV::diff_key);
    reveal(AppV::diff_motion);
    lemma_fresh(app, press(KeyCode::Char('j')));
    lemma_fresh(app, press(KeyCode::Down));
    lemma_fresh(app, press(KeyCode::Char('k')));
    lemma_fresh(app, press(KeyCode::Up));
    lemma_fresh(app, with_ctrl('d'));
    lemma_fresh(app, with_ctrl('u'));
    lemma_fresh(app, press(KeyCode::Char('G')));
    lemma_fresh(app, press(KeyCode::Char('Z')));
}

/// In the diff view `o` and Esc lead back to the list, `s` switches the layout, `v` marks the file
/// as viewed and goes on, `w` treats whitespace in the next way, `/` starts a search, and `n` and
/// `N` go to the next match and to the one before.
pub proof fn law_diff_commands(app: AppV, d: DiffV)
    requires
        resting(app),
        app.screen == Screen::Diff,
        app.diff == Some(d),
    ensures
        ({
            let s = AppV { flash: None, ..app };
            &&& app.key(press(KeyCode::Char('o'))) == (AppV {
                screen: Screen::Overview,
                ..s
            }).quiet()
            &&& app.key(press(KeyCode::Esc)) == (AppV { screen: Screen::Overview, ..s }).quiet()
            &&& app.key(press(KeyCode::Char('s'))) == s.mode_toggled().quiet()
            &&& app.key(press(KeyCode::Char('v'))) == s.viewed_advanced()
            &&& app.key(press(KeyCode::Char('w'))) == s.whitespace_cycled()
            &&& app.key(press(KeyCode::Char('/'))) == (AppV {
                diff_searching: true,
                ..s.with_diff(d.unsearched())
            }).quiet()
            &&& app.key(press(KeyCode::Char('n'))) == s.search_jumped(1).quiet()
            &&& app.key(press(KeyCode::Char('N'))) == s.search_jumped(-1).quiet()
        }),
{
    reveal(AppV::fresh_key);
    reveal(AppV::diff_key);
    reveal(AppV::diff_motion);
    reveal(AppV::diff_command);
    reveal(AppV::diff_view_change);
    reveal(AppV::diff_search);
    reveal(AppV::diff_loading);
    lemma_fresh(app, press(KeyCode::Char('o')));
    lemma_fresh(app, press(KeyCode::Esc));
    lemma_fresh(app, press(KeyCode::Char('s')));
    lemma_fresh(app, press(KeyCode::Char('v')));
    lemma_fresh(app, press(KeyCode::Char('w')));
    lemma_fresh(app, press(KeyCode::Char('/')));
    lemma_fresh(app, press(KeyCode::Char('n')));
    lemma_fresh(app, press(KeyCode::Char('N')));
}

/// A first key of a sequence is kept for the next one.
proof fn lemma_prefix_kept(app: AppV, d: DiffV, c: char)
    requires
        resting(app),
        app.screen == Screen::Diff,
        app.diff == Some(d),
        c == 'g' || c == ']' || c == '[',
    ensures
        app.key(press(KeyCode::Char(c))) == (AppV {
            pending: Some(c),
            flash: None,
            ..app
        }).quiet(),
{
    reveal(AppV::fresh_key);
    reveal(AppV::diff_key);
    reveal(AppV::diff_motion);
    reveal(AppV::diff_command);
    reveal(AppV::diff_view_change);
    lemma_fresh(app, press(KeyCode::Char(c)));
}

/// What a second key of a sequence does.
proof fn lemma_second(app: AppV, prefix: char, c: char)
    requires
        resting(app),
        app.screen == Screen::Diff,
    ensures
        (AppV { pending: Some(prefix), flash: None, ..app }).key(press(KeyCode::Char(c))) == (
        match (AppV { flash: None, ..app }).sequence(prefix, press(KeyCode::Char(c))) {
            Some(out) => out,
            None => (AppV { flash: None, ..app }).fresh_key(press(KeyCode::Char(c))),
        }),
{
    let s = AppV { flash: None, ..app };
    let t = AppV { pending: Some(prefix), flash: None, ..app };
    reveal(AppV::overlay_key);
    assert(AppV { pending: None, ..(AppV { flash: None, ..t }) } == s);
}

/// In the diff view `g` `g` goes to the top; `]` and `[` go on and back by what the next key says:
/// `h` by a hunk, `f` by a file, `r` by a related file.
pub proof fn law_diff_sequences(app: AppV, d: DiffV)
    requires
        resting(app),
        app.screen == Screen::Diff,
        app.diff == Some(d),
    ensures
        ({
            let s = AppV { flash: None, ..app };
            let g = press(KeyCode::Char('g'));
            let on = app.key(press(KeyCode::Char(']'))).app;
            let back = app.key(press(KeyCode::Char('['))).app;
            let h = press(KeyCode::Char('h'));
            let f = press(KeyCode::Char('f'));
            let r = press(KeyCode::Char('r'));
            &&& app.key(g).app.key(g) == s.with_diff(d.scrolled_to(0)).quiet()
            &&& on.key(h) == s.with_diff(d.hunk_jumped(1)).quiet()
            &&& back.key(h) == s.with_diff(d.hunk_jumped(-1)).quiet()
            &&& on.key(f) == s.file_changed(1)
            &&& back.key(f) == s.file_changed(-1)
            &&& on.key(r) == s.related_jumped(1)
            &&& back.key(r) == s.related_jumped(-1)
        }),
{
    lemma_prefix_kept(app, d, 'g');
    lemma_prefix_kept(app, d, ']');
    lemma_prefix_kept(app, d, '[');
    lemma_second(app, 'g', 'g');
    lemma_second(app, ']', 'h');
    lemma_second(app, '[', 'h');
    lemma_second(app, ']', 'f');
    lemma_second(app, '[', 'f');
    lemma_second(app, ']', 'r');
    lemma_second(app, '[', 'r');
    reveal(AppV::sequence);
    reveal(AppV::sequence_within);
    reveal(AppV::sequence_across);
}

/// In the diff view `z` opens the nearest fold; `R` behind it opens all of them and `M` closes them.
pub proof fn law_fold_keys(app: AppV, d: DiffV)
    requires
        resting(app),
        app.screen == Screen::Diff,
        app.diff == Some(d),
    ensures
        ({
            let s = AppV { flash: None, ..app };
            let z = app.key(press(KeyCode::Char('z')));
            &&& z == (AppV { pending: Some('z'), ..s.with_diff(d.fold_expanded()) }).quiet()
            &&& z.app.key(press(KeyCode::Char('R'))) == s.with_diff(
                d.fold_expanded().folded_all(true),
            ).quiet()
            &&& z.app.key(press(KeyCode::Char('M'))) == s.with_diff(
                d.fold_expanded().folded_all(false),
            ).quiet()
        }),
{
    let s = AppV { flash: None, ..app };
    let e = s.with_diff(d.fold_expanded());
    assert(app.key(press(KeyCode::Char('z'))) == (AppV { pending: Some('z'), ..e }).quiet()) by {
        reveal(AppV::fresh_key);
        reveal(AppV::diff_key);
        reveal(AppV::diff_motion);
        lemma_fresh(app, press(KeyCode::Char('z')));
    }
    lemma_second(e, 'z', 'R');
    lemma_second(e, 'z', 'M');
    reveal(AppV::sequence);
    reveal(AppV::sequence_within);
}

/// While a filter is typed, characters are added to it and taken back, and the list follows; Enter
/// keeps it and Esc drops it.
pub proof fn law_filter_keys(app: AppV, c: char)
    requires
        !app.show_help && !app.show_commits,
        app.explain is Idle && app.commit is Idle,
        app.ov.filtering,
    ensures
        ({
            let s = AppV { flash: None, ..app };
            let typed = OverviewV { filter: app.ov.filter.push(c), ..app.ov };
            let dropped = OverviewV { filter: Seq::empty(), filtering: false, ..app.ov };
            &&& app.key(press(KeyCode::Char(c))) == (AppV {
                ov: typed.reordered(app.changeset.files),
                ..s
            }).quiet()
            &&& app.key(press(KeyCode::Enter)) == (AppV {
                ov: OverviewV { filtering: false, ..app.ov },
                ..s
            }).quiet()
            &&& app.key(press(KeyCode::Esc)) == (AppV {
                ov: dropped.reordered(app.changeset.files),
                ..s
            }).quiet()
            &&& app.ov.filter.len() > 0 ==> app.key(press(KeyCode::Backspace)) == (AppV {
                ov: (OverviewV { filter: app.ov.filter.drop_last(), ..app.ov }).reordered(
                    app.changeset.files,
                ),
                ..s
            }).quiet()
        }),
{
    reveal(AppV::overlay_key);
    reveal(AppV::filter_key);
}

/// While a search is typed, characters are added to it and taken back, and the view jumps to what
/// is found; Enter keeps it and Esc drops it.
pub proof fn law_search_keys(app: AppV, d: DiffV, c: char)
    requires
        !app.show_help && !app.show_commits,
        app.explain is Idle && app.commit is Idle,
        !app.ov.filtering,
        app.diff_searching,
        app.diff == Some(d),
    ensures
        ({
            let s = AppV { flash: None, ..app };
            &&& app.key(press(KeyCode::Char(c))) == s.with_diff(
                (DiffV { search: d.search.push(c), ..d }).rematched(true),
            ).quiet()
            &&& app.key(press(KeyCode::Enter)) == (AppV { diff_searching: false, ..s }).quiet()
            &&& app.key(press(KeyCode::Esc)) == (AppV {
                diff_searching: false,
                ..s.with_diff(d.unsearched())
            }).quiet()
            &&& d.search.len() > 0 ==> app.key(press(KeyCode::Backspace)) == s.with_diff(
                (DiffV { search: d.search.drop_last(), ..d }).rematched(true),
            ).quiet()
        }),
{
    reveal(AppV::overlay_key);
    reveal(AppV::search_key);
}

/// While a commit message is typed, Enter commits, Esc gives up, and any character is added.
pub proof fn law_commit_keys(app: AppV, c: char)
    requires
        !app.show_help && !app.show_commits,
        app.explain is Idle,
        app.commit is Prompting,
    ensures
        ({
            let s = AppV { flash: None, ..app };
            &&& app.key(press(KeyCode::Char(c))) == (AppV {
                commit: app.commit.typed(c),
                ..s
            }).quiet()
            &&& app.key(press(KeyCode::Backspace)) == (AppV {
                commit: app.commit.untyped(),
                ..s
            }).quiet()
            &&& app.key(press(KeyCode::Enter)) == s.committing()
            &&& app.key(press(KeyCode::Esc)) == (AppV { commit: CommitV::Idle, ..s }).quiet()
        }),
{
    reveal(AppV::overlay_key);
    reveal(AppV::commit_key);
}

/// While guidance for a query is typed, Enter runs the query and Esc gives up; while it runs, Esc
/// stops it and no other key does anything.
pub proof fn law_query_keys(app: AppV, g: GuidanceV, c: char)
    requires
        !app.show_help && !app.show_commits,
    ensures
        app.explain == ExplainV::Prompting(g) ==> {
            let s = AppV { flash: None, ..app };
            &&& app.key(press(KeyCode::Enter)) == s.asking(
                ActionV::RunQuery(crate::explain::submit_v(g)),
            )
            &&& app.key(press(KeyCode::Esc)) == (AppV { explain: ExplainV::Idle, ..s }).quiet()
            &&& app.key(press(KeyCode::Char(c))) == (AppV {
                explain: app.explain.typed(c),
                ..s
            }).quiet()
            &&& app.key(press(KeyCode::Backspace)) == (AppV {
                explain: app.explain.untyped(),
                ..s
            }).quiet()
        },
        app.explain is Running ==> {
            let s = AppV { flash: None, ..app };
            &&& app.key(press(KeyCode::Esc)).action == ActionV::StopQuery
            &&& app.key(press(KeyCode::Esc)).app.explain is Idle
            &&& app.key(press(KeyCode::Char(c))) == s.quiet()
            &&& app.key(press(KeyCode::Enter)) == s.quiet()
        },
{
    reveal(AppV::overlay_key);
    reveal(AppV::explain_key);
    reveal(AppV::guidance_key);
    reveal(AppV::running_key);
}

/// An answer is scrolled by `j`, `k` and the arrows, closed by Esc, Enter, `q` and `e`, and saved by
/// `s` under a name that can be changed.
pub proof fn law_answer_keys(app: AppV, c: char)
    requires
        !app.show_help && !app.show_commits,
        app.explain is Result,
    ensures
        app.explain->Result_0.save is None ==> {
            let s = AppV { flash: None, ..app };
            let closed = (AppV { explain: ExplainV::Idle, ..s }).quiet();
            let down = (AppV { explain: app.explain.scrolled(1), ..s }).quiet();
            let up = (AppV { explain: app.explain.scrolled(-1), ..s }).quiet();
            &&& app.key(press(KeyCode::Esc)) == closed
            &&& app.key(press(KeyCode::Enter)) == closed
            &&& app.key(press(KeyCode::Char('q'))) == closed
            &&& app.key(press(KeyCode::Char('e'))) == closed
            &&& app.key(press(KeyCode::Char('j'))) == down
            &&& app.key(press(KeyCode::Down)) == down
            &&& app.key(press(KeyCode::Char('k'))) == up
            &&& app.key(press(KeyCode::Up)) == up
            &&& app.key(press(KeyCode::Char('s'))) == (AppV {
                explain: app.explain.saving(Some("explanation.md"@)),
                ..s
            }).quiet()
        },
        app.explain->Result_0.save matches Some(name) ==> {
            let s = AppV { flash: None, ..app };
            &&& app.key(press(KeyCode::Enter)) == s.asking(
                (ActionV::SaveAnswer { name, text: app.explain->Result_0.text }),
            )
            &&& app.key(press(KeyCode::Esc)) == (AppV {
                explain: app.explain.saving(None),
                ..s
            }).quiet()
            &&& app.key(press(KeyCode::Char(c))) == (AppV {
                explain: app.explain.saving(Some(name.push(c))),
                ..s
            }).quiet()
        },
{
    reveal(AppV::overlay_key);
    reveal(AppV::explain_key);
    reveal(AppV::answer_key);
    reveal(AppV::save_key);
}

/// In a script of keys a word names a key, or stands for its first character; `C-` and a character
/// is that character with `Ctrl`.
pub proof fn law_key_names(c: char)
    requires
        c as u32 <= 0x7f,
    ensures
        super::keys::key_v("CR"@) == press(KeyCode::Enter),
        super::keys::key_v("ESC"@) == press(KeyCode::Esc),
        super::keys::key_v("SP"@) == press(KeyCode::Char(' ')),
        super::keys::key_v("BS"@) == press(KeyCode::Backspace),
        super::keys::key_v("TAB"@) == press(KeyCode::Tab),
        super::keys::key_v(seq!['C', '-', c]) == with_ctrl(c),
        super::keys::key_v(seq![c]) == press(KeyCode::Char(c)),
{
    reveal_strlit("CR");
    reveal_strlit("ESC");
    reveal_strlit("SP");
    reveal_strlit("BS");
    reveal_strlit("TAB");
    reveal_strlit("C-");
    assert("CR"@[0] == 'C' && "SP"@[0] == 'S' && "BS"@[0] == 'B');
    assert("ESC"@[0] == 'E' && "TAB"@[0] == 'T');
    assert("ESC"@.len() == 3 && "TAB"@.len() == 3);
    let s = seq!['C', '-', c];
    let a = seq!['C'];
    let b = seq!['C', '-'];
    crate::text::lemma_byte_len_push(Seq::empty(), 'C');
    crate::text::lemma_byte_len_push(a, '-');
    crate::text::lemma_byte_len_push(b, c);
    crate::text::lemma_byte_len_push(Seq::empty(), c);
    assert(Seq::<char>::empty().push('C') =~= a);
    assert(a.push('-') =~= b);
    assert(b.push(c) =~= s);
    assert(Seq::<char>::empty().push(c) =~= seq![c]);
    lemma_one_byte('C');
    lemma_one_byte('-');
    lemma_one_byte(c);
    assert(vstd::utf8::encode_utf8(Seq::<char>::empty()) =~= Seq::<u8>::empty());
    assert(crate::text::byte_len_v(s) == 3);
    assert(s[1] == '-');
    assert("C-"@ =~= s.subrange(0, 2));
    assert(seq![c].len() == 1);
}

proof fn lemma_one_byte(c: char)
    requires
        c as u32 <= 0x7f,
    ensures
        crate::text::char_len_v(c) == 1,
{
}

} // verus!
