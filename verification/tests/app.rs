use rudiff::app::actions::{Action, After, Effects};
use rudiff::app::keys::{Key, KeyCode};
use rudiff::app::listing::SortMode;
use rudiff::app::pairing::{pair_changes, similarity, SIMILARITY_THRESHOLD};
use rudiff::app::related::Blobs;
use rudiff::app::rows::{DisplayRow, ViewMode, Whitespace};
use rudiff::app::{App, Screen};
use rudiff::cli::Cli;
use rudiff::explain::Assistant;
use rudiff::git::model::{Changeset, DiffLine, FileChange, FileStatus, ObjectId, Special};
use rudiff::git::Repo;
use rudiff::theme::Theme;
use rudiff::viewed::Viewed;

fn cli() -> Cli {
    Cli {
        revspec: None,
        uncommitted: false,
        unified: false,
        side_by_side: false,
        no_config: false,
        config: None,
        print: false,
        snapshot: None,
        keys: None,
    }
}

fn file(path: &str, additions: usize, deletions: usize, hash: u64) -> FileChange {
    FileChange {
        path: path.to_string(),
        old_path: None,
        status: FileStatus::Modified,
        additions,
        deletions,
        content_hash: hash,
        special: Special::Plain,
        old_id: None,
        new_id: None,
    }
}

fn changeset(files: Vec<FileChange>, is_working: bool) -> Changeset {
    Changeset {
        base: ObjectId { bytes: vec![1; 20] },
        head: ObjectId { bytes: vec![2; 20] },
        base_name: "main".to_string(),
        head_name: "topic".to_string(),
        files,
        commits: Vec::new(),
        is_working,
    }
}

fn app_of(cs: Changeset) -> App {
    let repo = Repo { root: "/r".to_string(), git_dir: "/r/.git".to_string(), branch: None };
    App::new(
        repo,
        cs,
        &cli(),
        None,
        Theme::detect(&None, &None),
        Viewed::load(&Vec::new()),
        Assistant { program: "helper".to_string(), name: "Helper".to_string() },
    )
}

fn three() -> App {
    app_of(changeset(
        vec![file("b.rs", 1, 0, 11), file("a.rs", 5, 5, 22), file("c/d.rs", 3, 0, 33)],
        true,
    ))
}

fn blobs(old: &str, new: &str) -> Blobs {
    Blobs { old: Some(old.as_bytes().to_vec()), new: Some(new.as_bytes().to_vec()) }
}

/// The contents of the three files: the second uses what the first defines.
fn contents(i: usize) -> Blobs {
    match i {
        0 => blobs("", "fn helper() {}\nfn other() {}\n"),
        1 => blobs("fn a() {}\n", "fn a() { helper(); other(); }\n"),
        _ => {
            let old: String = (0..60).map(|i| format!("line {i}\n")).collect();
            let new = old.replace("line 10\n", "LINE 10\n").replace("line 50\n", "LINE 50\n");
            blobs(&old, &new)
        }
    }
}

/// Performs what a key asks for, as far as it reads files.
fn perform(app: &mut App, effects: Effects) {
    if let Action::LoadFile(load) = effects.action {
        let all: Vec<Blobs> = (0..app.changeset.files.len()).map(contents).collect();
        app.load_current_file(load, &contents(load.file_index), &Some(all));
    }
}

fn press(app: &mut App, script: &str) {
    for key in App::feed_keys(script) {
        let effects = app.on_key(key);
        perform(app, effects);
    }
}

fn flash(app: &App) -> &str {
    app.flash.as_deref().unwrap_or("")
}

#[test]
fn a_script_of_keys_is_read() {
    let keys = App::feed_keys("j, CR,ESC ,SP,BS,TAB,C-d,,é,Cx");
    let codes: Vec<KeyCode> = keys.iter().map(|k| k.code).collect();
    assert_eq!(
        codes,
        vec![
            KeyCode::Char('j'),
            KeyCode::Enter,
            KeyCode::Esc,
            KeyCode::Char(' '),
            KeyCode::Backspace,
            KeyCode::Tab,
            KeyCode::Char('d'),
            KeyCode::Char('é'),
            KeyCode::Char('C'),
        ]
    );
    let ctrl: Vec<bool> = keys.iter().map(|k| k.ctrl).collect();
    assert_eq!(ctrl, vec![false, false, false, false, false, false, true, false, false]);
}

#[test]
fn files_are_listed_by_size_path_and_status() {
    let mut app = three();
    assert_eq!(app.ov.order, vec![1, 2, 0]);
    press(&mut app, "j,s");
    assert_eq!(app.ov.sort, SortMode::Path);
    assert_eq!(app.ov.order, vec![1, 0, 2]);
    assert_eq!(app.selected_file_index(), Some(2));
    press(&mut app, "s");
    assert_eq!(app.ov.sort, SortMode::Status);
    assert_eq!(app.selected_file_index(), Some(2));
    press(&mut app, "s");
    assert_eq!(app.ov.sort, SortMode::Size);
    assert_eq!(app.ov.sort.label(), "size");
}

#[test]
fn the_cursor_stays_in_the_list() {
    let mut app = three();
    press(&mut app, "k");
    assert_eq!(app.ov.selected, 0);
    press(&mut app, "G");
    assert_eq!(app.ov.selected, 2);
    press(&mut app, "j");
    assert_eq!(app.ov.selected, 2);
    press(&mut app, "g,g");
    assert_eq!(app.ov.selected, 0);
    app.ov.viewport_rows = 4;
    press(&mut app, "C-d");
    assert_eq!(app.ov.selected, 2);
    press(&mut app, "C-u");
    assert_eq!(app.ov.selected, 0);
}

#[test]
fn the_filter_narrows_the_list_while_typed() {
    let mut app = three();
    press(&mut app, "G,/,C,/,D");
    assert_eq!(app.ov.order, vec![2]);
    assert_eq!(app.ov.selected, 0);
    press(&mut app, "BS,BS,BS,z,z");
    assert!(app.ov.order.is_empty());
    assert_eq!(app.selected_file_index(), None);
    press(&mut app, "CR,CR");
    assert!(matches!(app.screen, Screen::Overview));
    press(&mut app, "/,ESC");
    assert_eq!(app.ov.order.len(), 3);
    assert!(!app.ov.filtering);
}

#[test]
fn viewed_marks_toggle_for_one_and_for_many() {
    let mut app = three();
    let effects = app.on_key(Key::plain(KeyCode::Char('v')));
    assert!(effects.save_viewed);
    assert!(app.is_viewed(1));
    assert_eq!(app.viewed_count(), 1);
    press(&mut app, "SP,j,SP,v");
    assert!(app.is_viewed(1) && app.is_viewed(2));
    assert!(app.ov.marked.is_empty());
    press(&mut app, "k,SP,j,SP,v");
    assert_eq!(app.viewed_count(), 0);
    press(&mut app, "SP,SP");
    assert!(app.ov.marked.is_empty());
}

#[test]
fn a_file_is_opened_with_related_files() {
    let mut app = three();
    press(&mut app, "G,CR");
    assert!(matches!(app.screen, Screen::Diff));
    let d = app.diff.as_ref().unwrap();
    assert_eq!(d.file_index, 0);
    assert_eq!(d.related.len(), 1);
    assert_eq!(d.related[0].file_index, 1);
    assert_eq!(d.related[0].count, 2);
    assert_eq!(d.related[0].verb.label(), "calls");
    assert_eq!(d.related[0].sample, "helper");
    press(&mut app, "],r");
    assert_eq!(app.diff.as_ref().unwrap().file_index, 1);
    assert_eq!(app.ov.selected, 0);
    press(&mut app, "],r");
    assert_eq!(flash(&app), "no related files");
    press(&mut app, "o");
    assert!(matches!(app.screen, Screen::Overview));
}

#[test]
fn hunks_and_folds_of_a_file() {
    let mut app = three();
    press(&mut app, "j,CR");
    let d = app.diff.as_ref().unwrap();
    assert_eq!(d.file_index, 2);
    assert_eq!(d.doc.hunks.len(), 2);
    assert!(matches!(d.rows[0], DisplayRow::Fold { start: 0, hidden: 7 }));
    assert_eq!(d.sep_rows, vec![1, 11]);
    press(&mut app, "],h");
    assert_eq!(app.diff.as_ref().unwrap().scroll, 11);
    press(&mut app, "],h,],h");
    assert_eq!(app.diff.as_ref().unwrap().scroll, 11);
    press(&mut app, "[,h");
    assert_eq!(app.diff.as_ref().unwrap().scroll, 1);
    press(&mut app, "g,g,z");
    let d = app.diff.as_ref().unwrap();
    assert!(d.expanded.contains(&0));
    assert!(matches!(d.rows[0], DisplayRow::Line { idx: 0 }));
    press(&mut app, "Z");
    assert!(app.diff.as_ref().unwrap().expanded.is_empty());
    press(&mut app, "z,R");
    let d = app.diff.as_ref().unwrap();
    assert!(d.rows.iter().all(|r| !matches!(r, DisplayRow::Fold { .. })));
    let shown: Vec<usize> = d
        .rows
        .iter()
        .filter_map(|r| match r {
            DisplayRow::Line { idx } => Some(*idx),
            _ => None,
        })
        .collect();
    assert_eq!(shown, (0..d.doc.lines.len()).collect::<Vec<usize>>());
    press(&mut app, "z,M");
    assert_eq!(app.diff.as_ref().unwrap().total_rows, 21);
}

#[test]
fn two_columns_pair_what_changed() {
    let mut app = three();
    press(&mut app, "j,CR,],h,s");
    let d = app.diff.as_ref().unwrap();
    assert_eq!(d.mode, ViewMode::SideBySide);
    assert_eq!(app.mode_override, Some(ViewMode::SideBySide));
    assert_eq!(d.scroll, d.sep_rows[1]);
    let mut lefts: Vec<usize> = Vec::new();
    let mut rights: Vec<usize> = Vec::new();
    for row in &d.rows {
        if let DisplayRow::SideLine { left, right } = row {
            lefts.extend(left.iter());
            rights.extend(right.iter());
        }
        if let DisplayRow::Fold { start, hidden } = row {
            lefts.extend(*start..start + hidden);
            rights.extend(*start..start + hidden);
        }
    }
    let old: Vec<usize> =
        (0..d.doc.lines.len()).filter(|&i| d.doc.lines[i].old_lineno().is_some()).collect();
    let new: Vec<usize> =
        (0..d.doc.lines.len()).filter(|&i| d.doc.lines[i].new_lineno().is_some()).collect();
    assert_eq!(lefts, old);
    rights.sort();
    assert_eq!(rights, new);
}

#[test]
fn the_layout_follows_the_width_until_it_is_set() {
    let mut app = three();
    press(&mut app, "CR");
    assert_eq!(app.diff.as_ref().unwrap().mode, ViewMode::Unified);
    app.width = 165;
    app.reconcile_mode();
    assert_eq!(app.diff.as_ref().unwrap().mode, ViewMode::SideBySide);
    app.width = 164;
    app.reconcile_mode();
    assert_eq!(app.diff.as_ref().unwrap().mode, ViewMode::Unified);
    press(&mut app, "s");
    assert!(app.mode_is_pinned());
    app.reconcile_mode();
    assert_eq!(app.diff.as_ref().unwrap().mode, ViewMode::SideBySide);
    assert_eq!(app.initial_view_mode(), ViewMode::SideBySide);
}

#[test]
fn search_goes_round_the_matches() {
    let mut app = three();
    press(&mut app, "n");
    assert_eq!(flash(&app), "");
    press(&mut app, "j,CR,n");
    assert_eq!(flash(&app), "no active search");
    press(&mut app, "/,l,i,n,e, SP,5,0");
    let d = app.diff.as_ref().unwrap();
    assert_eq!(d.search, "line 50");
    assert_eq!(d.matches.len(), 2);
    assert_eq!(d.scroll, d.matches[0]);
    press(&mut app, "CR,n");
    assert_eq!(flash(&app), "match 2/2");
    press(&mut app, "n");
    assert_eq!(flash(&app), "match 1/2");
    press(&mut app, "N");
    assert_eq!(flash(&app), "match 2/2");
    press(&mut app, "/,q,CR,n");
    assert_eq!(flash(&app), "no matches for \"q\"");
    press(&mut app, "/,l,ESC");
    let d = app.diff.as_ref().unwrap();
    assert!(d.search.is_empty() && d.matches.is_empty());
}

#[test]
fn whitespace_settings_cycle_and_load_anew() {
    let mut app = three();
    press(&mut app, "j,CR,],h");
    let effects = app.on_key(Key::plain(KeyCode::Char('w')));
    assert_eq!(flash(&app), "whitespace: dim");
    match &effects.action {
        Action::LoadFile(l) => {
            assert_eq!(l.file_index, 2);
            assert_eq!(l.anchor, Some(1));
            assert!(!l.enter);
        }
        _ => panic!("expected a file to be asked for"),
    }
    perform(&mut app, effects);
    let d = app.diff.as_ref().unwrap();
    assert_eq!(d.whitespace, Whitespace::Dim);
    assert_eq!(d.scroll, d.sep_rows[1]);
    press(&mut app, "w,w");
    assert_eq!(app.diff.as_ref().unwrap().whitespace, Whitespace::Show);
    assert_eq!(Whitespace::Ignore.label(), "ignore");
}

#[test]
fn marking_viewed_advances_to_the_end() {
    let mut app = three();
    press(&mut app, "CR,v");
    assert_eq!(app.ov.selected, 1);
    assert!(app.is_viewed(1));
    press(&mut app, "v,v");
    assert_eq!(app.viewed_count(), 3);
    assert!(matches!(app.screen, Screen::Overview));
    assert_eq!(app.ov.selected, 2);
    press(&mut app, "CR,[,f");
    assert_eq!(app.ov.selected, 1);
    press(&mut app, "],f,],f");
    assert_eq!(app.ov.selected, 2);
}

#[test]
fn overlays_take_all_keys() {
    let mut app = three();
    press(&mut app, "?");
    assert!(app.show_help);
    press(&mut app, "q");
    assert!(!app.show_help && !app.should_quit);
    press(&mut app, "c,q");
    assert!(!app.show_commits && !app.should_quit);
    press(&mut app, "o");
    assert_eq!(flash(&app), "already on overview");
    let gone = app.on_key(Key { code: KeyCode::Char('q'), ctrl: false, release: true });
    assert!(matches!(gone.action, Action::Nothing));
    assert_eq!(flash(&app), "already on overview");
    press(&mut app, "C-c");
    assert!(app.should_quit);
}

#[test]
fn viewed_files_are_committed() {
    let mut app = three();
    press(&mut app, "C");
    assert_eq!(flash(&app), "no reviewed files to commit (mark with v)");
    press(&mut app, "v,C,CR");
    assert!(app.commit.is_prompting());
    press(&mut app, "SP,f,i,x,x,BS");
    let effects = app.on_key(Key::plain(KeyCode::Enter));
    match effects.action {
        Action::Commit { files, message } => {
            assert_eq!(files, vec!["a.rs".to_string()]);
            assert_eq!(message, "fix");
        }
        _ => panic!("expected a commit"),
    }
    let effects = app.commit_done(Err("hook failed".to_string()));
    assert!(matches!(effects.action, Action::Nothing));
    assert!(app.commit.is_prompting());
    let effects = app.commit_done(Ok("abc fix".to_string()));
    assert!(app.commit.is_idle());
    match effects.action {
        Action::Rebuild { show_untracked, after } => {
            assert!(show_untracked);
            let rest = changeset(vec![file("b.rs", 1, 0, 11)], true);
            app.rebuild_working(after, Ok(rest));
        }
        _ => panic!("expected the changes to be read"),
    }
    assert_eq!(flash(&app), "committed 1 file — abc fix");
    assert_eq!(app.ov.order, vec![0]);
    assert!(app.facts.is_none());
}

#[test]
fn untracked_files_can_be_hidden() {
    let mut app = three();
    let effects = app.on_key(Key::plain(KeyCode::Char('t')));
    assert!(!app.show_untracked);
    match effects.action {
        Action::Rebuild { show_untracked, after } => {
            assert!(!show_untracked);
            assert!(matches!(after, After::Toggle));
            app.rebuild_working(after, Err("gone".to_string()));
        }
        _ => panic!("expected the changes to be read"),
    }
    assert!(app.show_untracked);
    assert_eq!(flash(&app), "could not refresh: gone");
    let mut other = app_of(changeset(Vec::new(), false));
    press(&mut other, "t");
    assert_eq!(flash(&other), "untracked toggle applies only to --uncommitted");
    press(&mut other, "C");
    assert_eq!(flash(&other), "commit applies only to --uncommitted");
}

#[test]
fn explanations_of_a_file_and_of_the_changeset() {
    let mut app = three();
    press(&mut app, "CR");
    press(&mut app, "e");
    assert!(app.explain.is_prompting());
    press(&mut app, "w,h,y");
    let effects = app.on_key(Key::plain(KeyCode::Enter));
    match effects.action {
        Action::RunQuery(args) => {
            assert!(args.iter().any(|a| a.contains("why") && a.contains("+++ b/a.rs")));
        }
        _ => panic!("expected a query"),
    }
    app.query_started(Ok(()));
    assert!(app.explain.is_running());
    let effects = app.on_key(Key::plain(KeyCode::Esc));
    assert!(matches!(effects.action, Action::StopQuery));
    assert_eq!(flash(&app), "explanation canceled");
    press(&mut app, "o");
    let effects = app.on_key(Key::plain(KeyCode::Char('e')));
    assert!(matches!(effects.action, Action::ReadChangeset));
    let all: Vec<Blobs> = (0..3).map(contents).collect();
    let text = app.changeset_diff_text(&all);
    for path in ["a.rs", "b.rs", "c/d.rs"] {
        assert!(text.contains(&format!("--- a/{path}\n")));
    }
    app.explain_changeset(&all);
    assert!(app.explain.is_prompting());
    press(&mut app, "ESC");
    assert!(app.explain.is_idle());
}

#[test]
fn there_is_nothing_to_explain_without_files() {
    let mut app = app_of(changeset(Vec::new(), true));
    app.explain_changeset(&Vec::new());
    assert_eq!(flash(&app), "nothing to explain here");
    assert!(app.explain.is_idle());
}

#[test]
fn binary_files_are_named_only() {
    let mut f = file("x.png", 0, 0, 1);
    f.special = Special::Binary { old_size: 1, new_size: 2 };
    let app = app_of(changeset(vec![f], true));
    let text = app.changeset_diff_text(&vec![Blobs { old: None, new: None }]);
    assert_eq!(text, "# x.png (binary, not shown)\n");
}

#[test]
fn only_escape_cancels_a_running_query() {
    let mut app = three();
    press(&mut app, "CR,e,CR");
    app.query_started(Ok(()));
    app.flash = Some("before".to_string());
    for code in [KeyCode::Char('q'), KeyCode::Char('j'), KeyCode::Enter, KeyCode::Char('s')] {
        let effects = app.on_explain_key(Key::plain(code));
        assert!(matches!(effects.action, Action::Nothing) && !effects.save_viewed);
        assert!(app.explain.is_running() && !app.should_quit);
        assert_eq!(flash(&app), "before");
        let _ = app.on_key(Key::plain(code));
        assert!(app.explain.is_running() && !app.should_quit);
        app.flash = Some("before".to_string());
    }
    let effects = app.on_key(Key::plain(KeyCode::Esc));
    assert!(matches!(effects.action, Action::StopQuery));
    assert!(app.explain.is_idle());
}

#[test]
fn every_hunk_has_one_separator() {
    let mut app = three();
    press(&mut app, "j,CR");
    for script in ["z,R", "s", "z,M", "s"] {
        press(&mut app, script);
        let d = app.diff.as_mut().unwrap();
        for _ in 0..2 {
            assert_eq!(d.total_rows, d.rows.len());
            assert_eq!(d.sep_rows.len(), d.doc.hunks.len());
            let found: Vec<(usize, usize)> = d
                .rows
                .iter()
                .enumerate()
                .filter_map(|(i, r)| match r {
                    DisplayRow::HunkSep { hunk } => Some((i, *hunk)),
                    _ => None,
                })
                .collect();
            let noted: Vec<(usize, usize)> =
                d.sep_rows.iter().enumerate().map(|(k, i)| (*i, k)).collect();
            assert_eq!(found, noted);
            let (rows, seps) = (d.rows.len(), d.sep_rows.clone());
            d.rebuild_rows();
            assert_eq!((d.rows.len(), d.sep_rows.clone()), (rows, seps));
        }
    }
}

#[test]
fn only_similar_lines_share_a_row() {
    let mut lines: Vec<DiffLine> = Vec::new();
    for (i, content) in ["abcd", "1234", "same"].iter().enumerate() {
        lines.push(DiffLine::Removed { old_lineno: i + 1, content: content.to_string() });
    }
    for (i, content) in ["wxyz", "abce", "12zz", "same"].iter().enumerate() {
        lines.push(DiffLine::Added { new_lineno: i + 1, content: content.to_string() });
    }
    assert!(similarity("abcd", "abce") > SIMILARITY_THRESHOLD);
    assert_eq!(similarity("1234", "12zz"), SIMILARITY_THRESHOLD);
    let rows = pair_changes(&vec![0, 1, 2], &vec![3, 4, 5, 6], &lines);
    assert_eq!(
        rows,
        vec![
            (Some(0), Some(4)),
            (Some(1), None),
            (Some(2), Some(6)),
            (None, Some(3)),
            (None, Some(5)),
        ]
    );
    let many: Vec<DiffLine> = (0..201)
        .map(|i| DiffLine::Removed { old_lineno: i + 1, content: "x".to_string() })
        .chain((0..200).map(|i| DiffLine::Added { new_lineno: i + 1, content: "x".to_string() }))
        .collect();
    let rows = pair_changes(&(0..201).collect(), &(201..401).collect(), &many);
    assert!(rows.len() == 401 && rows.iter().all(|r| r.0.is_none() || r.1.is_none()));
}

#[test]
fn the_layout_can_be_changed_there_and_back() {
    let mut app = three();
    press(&mut app, "j,CR,],h");
    let shown = |app: &App| {
        let d = app.diff.as_ref().unwrap();
        (format!("{:?}", d.rows), d.sep_rows.clone(), d.total_rows, d.scroll)
    };
    let before = shown(&app);
    press(&mut app, "s");
    let d = app.diff.as_ref().unwrap();
    assert_eq!(d.mode, ViewMode::SideBySide);
    assert_eq!(d.scroll, d.sep_rows[1]);
    press(&mut app, "s");
    assert_eq!(shown(&app), before);
    press(&mut app, "[,h,],h");
    assert_eq!(shown(&app), before);
    press(&mut app, "z,R");
    let opened = shown(&app).0;
    press(&mut app, "z,M,z,R");
    assert_eq!(shown(&app).0, opened);
}
