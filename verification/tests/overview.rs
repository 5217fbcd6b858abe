use rudiff::config::{Config, RawConfig, RawGroup};
use rudiff::git::model::{Changeset, CommitInfo, FileChange, FileStatus, ObjectId, Special};
use rudiff::group::{build, by_directory, max_churn, sort_groups, Group};
use rudiff::app::related::Blobs;
use rudiff::cli::Cli;
use rudiff::report::{config_source, dims, first_plain, report, ConfigSource};
use rudiff::style::Color;
use rudiff::theme::{is_dark_background, Theme};

fn file(path: &str, additions: usize, deletions: usize) -> FileChange {
    FileChange {
        path: path.to_string(),
        old_path: None,
        status: FileStatus::Modified,
        additions,
        deletions,
        content_hash: 0xabc,
        special: Special::Plain,
        old_id: None,
        new_id: None,
    }
}

fn cli() -> Cli {
    Cli {
        revspec: None,
        uncommitted: false,
        unified: false,
        side_by_side: false,
        no_config: false,
        config: None,
        print: false,
        snapshot: None,
        keys: None,
    }
}

#[test]
fn files_are_grouped_by_their_directory() {
    let files = vec![
        file("README.md", 50, 0),
        file("src/a.rs", 3, 1),
        file("src/deep/b.rs", 2, 0),
        file("docs/c.md", 6, 0),
        file("bin/x", 6, 0),
    ];
    let groups = by_directory(&files);
    let shown: Vec<(&str, usize, usize)> =
        groups.iter().map(|g| (g.name.as_str(), g.file_count, g.churn())).collect();
    assert_eq!(
        shown,
        vec![("bin", 1, 6), ("docs", 1, 6), ("src", 1, 4), ("src/deep", 1, 2), ("(root)", 1, 50)]
    );
    assert_eq!(max_churn(&groups), 50);
    assert_eq!(max_churn(&Vec::new()), 0);
    let built = build(&files, None);
    assert!(!built.from_config && !built.multi_group);
    assert_eq!(built.groups.len(), 5);
}

#[test]
fn configured_groups_count_a_file_under_each_match() {
    let raw = RawConfig {
        group: vec![
            RawGroup { name: "Rust".to_string(), patterns: vec!["**/*.rs".to_string()] },
            RawGroup { name: "Core".to_string(), patterns: vec!["src/core/**".to_string()] },
            RawGroup { name: "Unused".to_string(), patterns: vec!["none".to_string()] },
        ],
        explain: None,
    };
    let config = match Config::parse(raw) {
        Ok(c) => c,
        Err(e) => panic!("{}", e.message()),
    };
    let files = vec![file("src/core/a.rs", 1, 0), file("src/b.rs", 1, 1), file("x.md", 90, 0)];
    let built = build(&files, Some(&config));
    assert!(built.from_config && built.multi_group);
    let shown: Vec<(&str, usize, usize)> =
        built.groups.iter().map(|g| (g.name.as_str(), g.file_count, g.churn())).collect();
    assert_eq!(shown, vec![("Rust", 2, 3), ("Core", 1, 1), ("Other", 1, 90)]);
    let alone = build(&vec![file("x.md", 1, 0)], Some(&config));
    assert!(!alone.multi_group);
    assert_eq!(alone.groups.len(), 1);
}

#[test]
fn the_report_lists_the_changeset() {
    let mut moved = file("src/new.rs", 12, 3);
    moved.status = FileStatus::Renamed;
    moved.old_path = Some("src/old.rs".to_string());
    let mut image = file("logo.png", 0, 0);
    image.special = Special::Binary { old_size: 10, new_size: 20 };
    let mut module = file("vendor/x", 0, 0);
    module.special = Special::Submodule;
    module.status = FileStatus::Added;
    let mut link = file("l", 1, 1);
    link.special = Special::Symlink;
    link.status = FileStatus::Deleted;
    let cs = Changeset {
        base: ObjectId { bytes: vec![1; 20] },
        head: ObjectId { bytes: vec![2; 20] },
        base_name: "main".to_string(),
        head_name: "topic".to_string(),
        files: vec![image, module, link, moved],
        commits: vec![CommitInfo {
            id: ObjectId { bytes: vec![2; 20] },
            summary: "s".to_string(),
            author: "a".to_string(),
            time_secs: 5,
        }],
        is_working: false,
    };
    assert_eq!(first_plain(&cs), Some(3));
    let blobs = Blobs { old: Some(b"a\n".to_vec()), new: Some(b"b\n".to_vec()) };
    let pad = |s: &str| format!("{s:<30}");
    let expected = format!(
        "topic -> main\n4 files, +13 / -4, 1 commits, 1 authors\n\
         \x20 M {} +0    -0    hash=0000000000000abc  [binary 10->20]\n\
         \x20 A {} +0    -0    hash=0000000000000abc  [submodule]\n\
         \x20 D {} +1    -1    hash=0000000000000abc  [symlink]\n\
         \x20 R {} +12   -3    hash=0000000000000abc  (from src/old.rs)\n\
         \nfirst file `src/new.rs` -> 1 hunk(s)\n",
        pad("logo.png"),
        pad("vendor/x"),
        pad("l"),
        pad("src/new.rs"),
    );
    assert_eq!(report(&cs, &blobs), expected);
}

#[test]
fn the_configuration_can_be_turned_off() {
    assert!(matches!(config_source(&cli()), ConfigSource::Search));
    let given = Cli { config: Some("x.toml".to_string()), ..cli() };
    assert!(matches!(config_source(&given), ConfigSource::Path(p) if p == "x.toml"));
    let off = Cli { no_config: true, ..given };
    assert!(matches!(config_source(&off), ConfigSource::Off));
}

#[test]
fn sizes_of_a_screen_are_read() {
    assert_eq!(dims("120x40"), Some((120, 40)));
    assert_eq!(dims(" 8 x 9 "), Some((8, 9)));
    for bad in ["", "120", "x", "120x", "70000x1", "1x2x3", "-1x4"] {
        assert_eq!(dims(bad), None, "{bad:?}");
    }
}

#[test]
fn the_palette_follows_the_terminal() {
    let some = |s: &str| Some(s.to_string());
    for (value, dark) in
        [("15;0", true), ("0;15", false), ("0;default;7", false), ("0;x", true), ("0;8", true)]
    {
        assert_eq!(is_dark_background(&some(value)), dark, "{value}");
    }
    for bg in 0..=255 {
        let light = bg == 7 || (9..=15).contains(&bg);
        assert_eq!(is_dark_background(&some(&format!("0;{bg}"))), !light, "{bg}");
    }
    assert!(is_dark_background(&some("0;256")));
    assert!(is_dark_background(&None));
    let rgb = |t: &Theme| matches!(t.bg_success, Color::Rgb(..));
    assert!(rgb(&Theme::detect(&some("truecolor"), &None)));
    assert!(rgb(&Theme::detect(&some("24bit"), &some("0;15"))));
    assert!(!rgb(&Theme::detect(&some("yes"), &None)));
    assert!(!rgb(&Theme::detect(&None, &None)));
    let dark = Theme::detect(&some("truecolor"), &None);
    let light = Theme::detect(&some("truecolor"), &some("0;15"));
    assert_ne!(dark.bg_success, light.bg_success);
    let t = Theme::detect(&None, &None);
    assert_eq!(t.status_style(FileStatus::Added).fg, Some(t.added));
    assert_eq!(t.status_style(FileStatus::Deleted).fg, Some(t.removed));
    assert_eq!(t.syntax_style("keyword").fg, Some(Color::Magenta));
    assert_eq!(dark.syntax_style("keyword").fg, Some(Color::Rgb(198, 120, 221)));
    assert!(t.syntax_style("comment").italic);
    assert_eq!(t.syntax_style("keyword.control").fg, None);
}

#[test]
fn sorting_keeps_the_largest_churn() {
    let group = |name: &str, additions: usize, deletions: usize| Group {
        name: name.to_string(),
        file_count: 1,
        additions,
        deletions,
    };
    let groups = vec![group("a", 1, 1), group("(root)", 9, 3), group("b", 5, 0)];
    assert_eq!(max_churn(&groups), 12);
    let sorted = sort_groups(groups);
    assert_eq!(sorted.iter().map(|g| g.name.as_str()).collect::<Vec<&str>>(), ["b", "a", "(root)"]);
    assert_eq!(max_churn(&sorted), 12);
}
