use rudiff::app::actions::{Action, Effects};
use rudiff::app::keys::{Key, KeyCode};
use rudiff::app::related::Blobs;
use rudiff::app::App;
use rudiff::cli::Cli;
use rudiff::explain::{Assistant, Msg};
use rudiff::git::model::{Changeset, CommitInfo, FileChange, FileStatus, ObjectId, Special};
use rudiff::git::Repo;
use rudiff::style::{Color, Line, Span, Style};
use rudiff::theme::Theme;
use rudiff::ui::cells::{expand_style, search_chars, visual_lines, Paint};
use rudiff::ui::draw;
use rudiff::ui::explain::{panel_size, wrapped_count};
use rudiff::ui::layout::{Op, Rect};
use rudiff::ui::overview::{fractions, Shares};
use rudiff::ui::widgets::{justified, pad_to};
use rudiff::viewed::Viewed;
use std::collections::HashSet;

fn theme() -> Theme {
    Theme::detect(&None, &None)
}

fn file(path: &str, additions: usize, deletions: usize) -> FileChange {
    FileChange {
        path: path.to_string(),
        old_path: None,
        status: FileStatus::Modified,
        additions,
        deletions,
        content_hash: additions as u64,
        special: Special::Plain,
        old_id: None,
        new_id: None,
    }
}

fn app_of(files: Vec<FileChange>) -> App {
    let repo = Repo { root: "/r".to_string(), git_dir: "/r/.git".to_string(), branch: None };
    let cs = Changeset {
        base: ObjectId { bytes: vec![1; 20] },
        head: ObjectId { bytes: vec![2; 20] },
        base_name: "main".to_string(),
        head_name: "topic".to_string(),
        files,
        commits: vec![CommitInfo {
            id: ObjectId { bytes: vec![0xab; 20] },
            summary: "first change".to_string(),
            author: "someone".to_string(),
            time_secs: 0,
        }],
        is_working: true,
    };
    let cli = Cli {
        revspec: None,
        uncommitted: true,
        unified: false,
        side_by_side: false,
        no_config: true,
        config: None,
        print: false,
        snapshot: None,
        keys: None,
    };
    let helper = Assistant { program: "helper".to_string(), name: "Helper".to_string() };
    App::new(repo, cs, &cli, None, theme(), Viewed::load(&Vec::new()), helper)
}

fn shares(app: &App) -> Shares {
    Shares {
        reviewed: 0,
        percent: 0,
        groups: vec![3; app.grouping.groups.len()],
        files: vec![4; app.changeset.files.len()],
    }
}

fn blobs() -> Blobs {
    let old: String = (0..60).map(|i| format!("line {i}\n")).collect();
    let new = old.replace("line 10\n", "lime 10\n").replace("line 50\n", "lime 50\n");
    Blobs { old: Some(old.into_bytes()), new: Some(new.into_bytes()) }
}

fn perform(app: &mut App, effects: Effects) {
    if let Action::LoadFile(load) = effects.action {
        let all: Vec<Blobs> = app.changeset.files.iter().map(|_| blobs()).collect();
        app.load_current_file(load, &blobs(), &Some(all));
    }
}

fn press(app: &mut App, script: &str) {
    let keys: Vec<Key> = App::feed_keys(script);
    for key in keys {
        let effects = app.on_key(key);
        perform(app, effects);
    }
}

fn text(line: &Line) -> String {
    line.spans.iter().map(|s| s.content.as_str()).collect()
}

/// The drawn texts, one row each, with the areas checked to lie on the screen.
fn drawn(app: &mut App, width: u16, height: u16) -> Vec<String> {
    let area = Rect { x: 0, y: 0, width, height };
    let filled = shares(app);
    let mut out: Vec<String> = Vec::new();
    for op in draw(app, area, &filled, 3_600, 0) {
        let (part, lines) = match &op {
            Op::Text { area, lines, .. } | Op::Wrapped { area, lines, .. } => {
                (*area, lines.iter().map(text).collect::<Vec<String>>())
            }
            Op::Frame { area, title, .. } => (*area, vec![title.clone()]),
        };
        assert!(part.x + part.width <= width && part.y + part.height <= height);
        out.extend(lines);
    }
    out
}

fn has(rows: &[String], needle: &str) -> bool {
    rows.iter().any(|r| r.contains(needle))
}

#[test]
fn the_overview_shows_numbers_groups_and_files() {
    let mut app = app_of(vec![file("src/a.rs", 1500, 20), file("docs/b.md", 2, 0)]);
    let rows = drawn(&mut app, 80, 40);
    assert_eq!(app.width, 80);
    assert!(has(&rows, "topic") && has(&rows, "main"));
    assert!(has(&rows, "2 files changed") && has(&rows, "+1,502") && has(&rows, "-20"));
    assert!(has(&rows, "1 commit") && has(&rows, "1 author"));
    assert!(has(&rows, "src/") && has(&rows, "docs/b.md"));
    assert!(has(&rows, "███░░░░░░░░░░░░░░░░░░░░░"));
    let at = |needle: &str| rows.iter().position(|r| r.contains(needle)).unwrap();
    assert!(at("src/a.rs") < at("docs/b.md"));
}

#[test]
fn the_list_is_scrolled_to_the_cursor() {
    let files: Vec<FileChange> = (0..100).map(|i| file(&format!("f{i:03}"), 1, 0)).collect();
    let mut app = app_of(files);
    press(&mut app, "G");
    let rows = drawn(&mut app, 80, 30);
    assert!(has(&rows, "f099") && !has(&rows, "f000"));
    assert!(app.ov.offset > 0);
    press(&mut app, "g,g");
    let rows = drawn(&mut app, 80, 30);
    assert!(has(&rows, "f000") && !has(&rows, "f099"));
    assert_eq!(app.ov.offset, 0);
    assert!(has(&rows, "more"));
}

#[test]
fn screens_of_any_size_are_drawn() {
    for (w, h) in [(0, 0), (1, 1), (3, 2), (10, 5), (20, 8), (300, 100)] {
        let mut app = app_of(vec![file("src/a.rs", 15, 20), file("docs/b.md", 2, 0)]);
        let _ = drawn(&mut app, w, h);
        press(&mut app, "?");
        let _ = drawn(&mut app, w, h);
        press(&mut app, "?,c");
        let _ = drawn(&mut app, w, h);
        press(&mut app, "c,CR");
        let _ = drawn(&mut app, w, h);
        press(&mut app, "s,/,l,i");
        let _ = drawn(&mut app, w, h);
    }
}

#[test]
fn the_diff_view_shows_lines_folds_and_hunks() {
    let mut app = app_of(vec![file("src/a.rs", 2, 2), file("b.rs", 1, 0)]);
    press(&mut app, "CR");
    let rows = drawn(&mut app, 100, 40);
    assert!(has(&rows, "src/a.rs"));
    assert!(has(&rows, "lime 10") && has(&rows, "line 10"));
    assert!(has(&rows, "7 unchanged lines"));
    assert!(!has(&rows, "line 30"));
    press(&mut app, "s");
    let rows = drawn(&mut app, 200, 40);
    assert!(rows.iter().any(|r| r.contains("line 10") && r.contains("lime 10")));
}

#[test]
fn overlays_are_drawn_on_top() {
    let mut app = app_of(vec![file("a.rs", 1, 0)]);
    press(&mut app, "?");
    let rows = drawn(&mut app, 100, 60);
    assert!(has(&rows, " Keybindings ") && has(&rows, "toggle this help"));
    assert!(has(&rows, "explain changes with Helper"));
    press(&mut app, "?,c");
    let rows = drawn(&mut app, 100, 40);
    assert!(has(&rows, " Commits (1) ") && has(&rows, "abababab") && has(&rows, "first change"));
    press(&mut app, "c,v,C,f,i,x");
    let rows = drawn(&mut app, 100, 40);
    assert!(has(&rows, "> fix▏") && has(&rows, " to main"));
    press(&mut app, "ESC,CR,e,w,h,y");
    let rows = drawn(&mut app, 100, 40);
    assert!(has(&rows, " Explain with Helper ") && has(&rows, "> why▏"));
}

#[test]
fn an_answer_is_shown_as_it_comes() {
    let mut app = app_of(vec![file("a.rs", 1, 0)]);
    press(&mut app, "CR,e,CR");
    app.query_started(Ok(()));
    let rows = drawn(&mut app, 100, 40);
    assert!(has(&rows, "Waiting for Helper…"));
    app.explain.receive(Msg::Chunk("# Title\n".to_string()));
    assert!(has(&drawn(&mut app, 100, 40), "Title"));
    app.explain.receive(Msg::Out("# Title\nbody **strong**".to_string()));
    app.explain.receive(Msg::Errors(String::new()));
    assert!(app.explain.is_ended());
    app.explain.poll("helper", true);
    let rows = drawn(&mut app, 100, 40);
    assert!(has(&rows, "body strong"));
    press(&mut app, "s,x");
    assert!(has(&drawn(&mut app, 100, 40), "x▏"));
}

#[test]
fn an_answer_takes_four_fifths_of_the_height() {
    for height in 0..=u16::MAX {
        let area = Rect { x: 0, y: 0, width: 100, height };
        let expected = ((height as f32 * 0.8) as u16).max(6);
        assert_eq!(panel_size(area).1, expected, "{height}");
    }
}

#[test]
fn rows_of_wrapped_lines_are_counted() {
    let line = |s: &str| Line::text(s, Style::plain());
    let lines = vec![line("abcdef"), line(""), line("ab")];
    assert_eq!(wrapped_count(&lines, 4), 4);
    assert_eq!(wrapped_count(&lines, 6), 3);
    assert_eq!(wrapped_count(&Vec::new(), 6), 0);
}

#[test]
fn wrapping_keeps_every_cell() {
    let none: Option<&HashSet<usize>> = None;
    let paint = Paint {
        intra: none,
        search: none,
        base_bg: None,
        strong_bg: None,
        search_bg: Color::Yellow,
    };
    let cells = expand_style(&vec![("a\tb漢字c".to_string(), Style::plain())], &paint);
    let flat: String = cells.iter().map(|c| c.0).collect();
    assert_eq!(flat, "a   b漢字c");
    for width in 1..12 {
        let rows = visual_lines(&cells, width);
        let texts: Vec<String> =
            rows.iter().map(|r| r.iter().map(|s| s.content.as_str()).collect()).collect();
        assert_eq!(texts.concat(), flat, "{width}");
    }
    let rows = visual_lines(&cells, 6);
    let texts: Vec<String> =
        rows.iter().map(|r| r.iter().map(|s| s.content.as_str()).collect()).collect();
    assert_eq!(texts, vec!["a   b", "漢字c"]);
    assert_eq!(visual_lines(&Vec::new(), 5).len(), 1);
}

#[test]
fn changed_and_found_characters_are_painted() {
    let hits = search_chars("Foo foo", "FOO").unwrap();
    assert_eq!(hits, HashSet::from([0, 1, 2, 4, 5, 6]));
    assert!(search_chars("Foo", "x").is_none());
    let intra = HashSet::from([1usize]);
    let found = HashSet::from([2usize]);
    let paint = Paint {
        intra: Some(&intra),
        search: Some(&found),
        base_bg: Some(Color::Red),
        strong_bg: Some(Color::Green),
        search_bg: Color::Yellow,
    };
    let cells = expand_style(&vec![("abc".to_string(), Style::plain())], &paint);
    let bgs: Vec<Option<Color>> = cells.iter().map(|c| c.1.bg).collect();
    assert_eq!(bgs, vec![Some(Color::Red), Some(Color::Green), Some(Color::Yellow)]);
}

#[test]
fn rows_are_padded_and_justified() {
    let raw = |s: &str| vec![Span::raw(s)];
    let padded: String = pad_to(raw("漢"), 4).iter().map(|s| s.content.clone()).collect();
    assert_eq!(padded, "漢  ");
    assert_eq!(text(&justified(raw("ab"), raw("cd"), 8)), "ab    cd");
    assert!(text(&justified(raw("abcd"), raw("efgh"), 4)).starts_with("abcd"));
    let inner = Rect { x: 2, y: 3, width: 10, height: 1 }.inside();
    assert_eq!(inner, Rect { x: 3, y: 4, width: 8, height: 0 });
}

#[test]
fn bars_stand_for_parts_of_the_largest() {
    let mut app = app_of(vec![file("src/a.rs", 15, 5), file("docs/b.md", 2, 0)]);
    press(&mut app, "v");
    let parts = fractions(&app);
    assert_eq!(parts.reviewed, (1, 2));
    assert_eq!(parts.groups, vec![(20, 20), (2, 20)]);
    assert_eq!(parts.files, vec![(20, 20), (2, 20)]);
    let none = fractions(&app_of(Vec::new()));
    assert_eq!(none.reviewed, (0, 1));
    assert!(none.groups.is_empty() && none.files.is_empty());
    assert_eq!(fractions(&app_of(vec![file("a", 0, 0)])).files, vec![(0, 1)]);
}

/// What is drawn, with its areas.
fn ops(app: &mut App, area: Rect) -> Vec<Op> {
    let filled = shares(app);
    draw(app, area, &filled, 3_600, 0)
}

fn area_of(op: &Op) -> Rect {
    match op {
        Op::Text { area, .. } | Op::Wrapped { area, .. } | Op::Frame { area, .. } => *area,
    }
}

fn rows_from(area: Rect, y: u16, height: u16) -> Rect {
    Rect { x: area.x, y, width: area.width, height }
}

#[test]
fn line_numbers_are_as_wide_as_the_largest() {
    let mut app = app_of(vec![file("a.txt", 0, 1195)]);
    let effects = app.on_key(Key::plain(KeyCode::Enter));
    let new: String = (0..4).map(|i| format!("top {i}\n")).collect::<String>() + "end\n";
    let old: String = (0..4)
        .map(|i| format!("top {i}\n"))
        .chain((0..1195).map(|i| format!("gone {i}\n")))
        .chain(["end\n".to_string()])
        .collect();
    let pair = || Blobs { old: Some(old.clone().into_bytes()), new: Some(new.clone().into_bytes()) };
    match effects.action {
        Action::LoadFile(load) => {
            app.load_current_file(load, &pair(), &Some(vec![pair()]));
        }
        _ => panic!("expected a file to load"),
    }
    press(&mut app, "G");
    let rows = drawn(&mut app, 100, 40);
    let d = app.diff.as_ref().unwrap();
    let last = d.doc.lines.last().unwrap();
    assert_eq!((last.old_lineno(), last.new_lineno()), (Some(1200), Some(5)));
    let end = rows.iter().find(|r| r.trim_end().ends_with("end")).unwrap();
    assert!(end.starts_with("    5 "), "{end:?}");
    assert!(rows.iter().any(|r| r.starts_with(" 1199 ")), "{rows:?}");
}

#[test]
fn the_overview_is_divided_from_the_top() {
    for height in 3..60 {
        let area = Rect { x: 2, y: 5, width: 90, height };
        let mut app = app_of(vec![file("src/a.rs", 15, 20), file("docs/b.md", 2, 0)]);
        let drawn = ops(&mut app, area);
        let lines = match &drawn[0] {
            Op::Text { lines, .. } => lines.len(),
            _ => panic!("expected text"),
        };
        let top = (lines as u16).min(height.saturating_sub(5));
        let n = drawn.len();
        assert_eq!(area_of(&drawn[0]), rows_from(area, 5, top), "{height}");
        assert_eq!(area_of(&drawn[1]), rows_from(area, 5 + top, 1), "{height}");
        assert_eq!(area_of(&drawn[2]), rows_from(area, 6 + top, height - top - 3), "{height}");
        assert_eq!(area_of(&drawn[n - 2]), rows_from(area, 3 + height, 1), "{height}");
        assert_eq!(area_of(&drawn[n - 1]), rows_from(area, 4 + height, 1), "{height}");
    }
}

#[test]
fn the_diff_view_is_divided_from_the_top() {
    for height in 6..60 {
        let area = Rect { x: 0, y: 1, width: 90, height };
        let mut app = app_of(vec![file("src/a.rs", 2, 2)]);
        press(&mut app, "CR");
        assert!(app.diff.as_ref().unwrap().related.is_empty());
        let drawn = ops(&mut app, area);
        let places: Vec<Rect> = drawn.iter().map(area_of).collect();
        assert_eq!(
            places,
            vec![
                rows_from(area, 1, 3),
                rows_from(area, 4, height - 5),
                rows_from(area, height - 1, 1),
                rows_from(area, height, 1),
            ],
            "{height}"
        );
    }
}

#[test]
fn overlays_stand_in_the_middle() {
    for width in [20, 55, 79, 80, 101, 180] {
        for height in [3, 8, 9, 24, 41] {
            let area = Rect { x: 1, y: 2, width, height };
            let mut app = app_of(vec![file("a.rs", 1, 0)]);
            press(&mut app, "v,C");
            let drawn = ops(&mut app, area);
            let frame = drawn.iter().find(|o| matches!(o, Op::Frame { .. })).map(area_of).unwrap();
            assert_eq!(frame.width, (width - 2).min(72), "{width} {height}");
            assert_eq!(frame.height, height.min(8), "{width} {height}");
            let left = frame.x - area.x;
            let right = area.x + width - (frame.x + frame.width);
            let above = frame.y - area.y;
            let below = area.y + height - (frame.y + frame.height);
            assert!(left.abs_diff(right) <= 1 && above.abs_diff(below) <= 1, "{width} {height}");
        }
    }
}

#[test]
fn an_answer_stands_in_the_middle_with_its_keys_below() {
    let area = Rect { x: 0, y: 0, width: 100, height: 40 };
    let mut app = app_of(vec![file("a.rs", 1, 0)]);
    press(&mut app, "CR,e,CR");
    app.query_started(Ok(()));
    app.explain.receive(Msg::Out("body".to_string()));
    app.explain.receive(Msg::Errors(String::new()));
    app.explain.poll("helper", true);
    let drawn = ops(&mut app, area);
    let at = drawn.iter().position(|o| matches!(o, Op::Frame { .. })).unwrap();
    let places: Vec<Rect> = drawn[at..].iter().map(area_of).collect();
    assert_eq!(places[0], Rect { x: 8, y: 4, width: 84, height: 32 });
    assert!(places.contains(&Rect { x: 9, y: 5, width: 82, height: 29 }));
    assert!(places.contains(&Rect { x: 9, y: 34, width: 82, height: 1 }));
}
