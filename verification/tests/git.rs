use rudiff::git::diff::{
    build_file_diff, content_hash, count_stats, looks_binary, normalize_line,
};
use rudiff::git::model::{DiffLine, ObjectId, Special};
use rudiff::git::{commit_info, working_change, EntryKind, RangeSpec, Repo, TreeChange};

#[test]
fn whitespace_only_change_hashes_same() {
    let p = "a.rs";
    let a = "fn main() {\n    let x = 1;\n}\n";
    let b = "fn main() {\n        let x = 1;\n}\n"; // only indentation changed
    assert_eq!(content_hash(p, a, a), content_hash(p, a, b));
}

#[test]
fn meaningful_change_hashes_differently() {
    let p = "a.rs";
    let a = "let x = 1;\n";
    let b = "let x = 2;\n";
    assert_ne!(content_hash(p, a, a), content_hash(p, a, b));
}

#[test]
fn stats_count_changes() {
    let (adds, dels) = count_stats("a\nb\nc\n", "a\nB\nc\nd\n");
    assert_eq!((adds, dels), (2, 1));
}

#[test]
fn hunks_have_correct_line_numbers() {
    let old = "1\n2\n3\n4\n5\n";
    let new = "1\n2\nX\n4\n5\n";
    let fd = build_file_diff(old, new, 3, false);
    assert_eq!(fd.hunks.len(), 1);
    // line 3 changed
    assert!(fd.lines.iter().any(|l| matches!(l, DiffLine::Removed { old_lineno: 3, .. })));
    assert!(fd.lines.iter().any(|l| matches!(l, DiffLine::Added { new_lineno: 3, .. })));
}

#[test]
fn distant_changes_form_separate_hunks() {
    // Two changes far apart should not merge into one hunk.
    let mut old = String::new();
    let mut new = String::new();
    for i in 0..40 {
        old.push_str(&format!("line{i}\n"));
        new.push_str(&format!("line{i}\n"));
    }
    let mut nv: Vec<&str> = new.lines().collect();
    nv[2] = "CHANGED_A";
    nv[35] = "CHANGED_B";
    let new2 = nv.join("\n") + "\n";
    let fd = build_file_diff(&old, &new2, 3, false);
    assert_eq!(fd.hunks.len(), 2, "distant edits should be two hunks");
    // The full line list retains every line, hunks cover only ~context windows.
    assert!(fd.lines.len() >= 40);
}

#[test]
fn range_parsing() {
    assert!(matches!(RangeSpec::parse(None), RangeSpec::Default));
    assert!(matches!(RangeSpec::parse(Some("")), RangeSpec::Default));
    assert!(matches!(RangeSpec::parse(Some("main")), RangeSpec::Base(b) if b == "main"));
    match RangeSpec::parse(Some("a..b")) {
        RangeSpec::Range { base, head, three_dot } => {
            assert_eq!((base.as_str(), head.as_str(), three_dot), ("a", "b", false));
        }
        _ => panic!("expected range"),
    }
    match RangeSpec::parse(Some("a...b")) {
        RangeSpec::Range { three_dot, .. } => assert!(three_dot),
        _ => panic!("expected range"),
    }
    match RangeSpec::parse(Some("a..")) {
        RangeSpec::Range { head, .. } => assert_eq!(head, "HEAD"),
        _ => panic!("expected range"),
    }
}

fn id(byte: u8) -> ObjectId {
    ObjectId { bytes: vec![byte; 20] }
}

fn bytes(s: &str) -> Option<Vec<u8>> {
    Some(s.as_bytes().to_vec())
}

#[test]
fn ranges_resolve_to_refs() {
    let main = Some("main".to_string());
    let plan = Repo::resolve(&RangeSpec::parse(None), &main, &Some("topic".to_string())).unwrap();
    assert_eq!(
        (plan.base.as_str(), plan.head.as_str(), plan.three_dot, plan.head_name.as_str()),
        ("main", "HEAD", true, "topic")
    );
    assert!(Repo::resolve(&RangeSpec::Default, &None, &None).is_none());
    let plan = Repo::resolve(&RangeSpec::parse(Some("v1")), &main, &None).unwrap();
    assert_eq!((plan.base.as_str(), plan.head_name.as_str()), ("v1", "HEAD"));
    let plan = Repo::resolve(&RangeSpec::parse(Some("a..b")), &main, &None).unwrap();
    assert_eq!(
        (plan.base.as_str(), plan.head.as_str(), plan.three_dot, plan.head_name.as_str()),
        ("a", "b", false, "b")
    );
    assert_eq!(Repo::default_candidates(None), vec!["main", "master"]);
    assert_eq!(
        Repo::default_candidates(Some("origin/dev".to_string())),
        vec!["origin/dev", "main", "master"]
    );
}

#[test]
fn tree_changes_become_file_changes() {
    let change = TreeChange::Rewrite {
        source_location: "a.rs".to_string(),
        source_id: id(1),
        location: "b.rs".to_string(),
        kind: EntryKind::Blob,
        id: id(2),
        copy: false,
    };
    let (old_id, new_id) = change.blobs();
    assert_eq!(old_id.map(|i| i.to_hex()), Some("01".repeat(20)));
    assert_eq!(new_id.map(|i| i.to_hex()), Some("02".repeat(20)));
    let f = Repo::change_to_file(change, &bytes("x\ny\n"), &bytes("x\nz\nw\n")).unwrap();
    assert_eq!((f.path.as_str(), f.old_path.as_deref()), ("b.rs", Some("a.rs")));
    assert_eq!((f.additions, f.deletions), (2, 1));
    assert_eq!(f.content_hash, content_hash("b.rs", "x\ny\n", "x\nz\nw\n"));
    assert_eq!(f.status.letter(), 'R');

    let dir = TreeChange::Addition { location: "d".to_string(), kind: EntryKind::Tree, id: id(3) };
    assert!(Repo::change_to_file(dir, &None, &None).is_none());

    let link = TreeChange::Deletion { location: "l".to_string(), kind: EntryKind::Link, id: id(3) };
    let f = Repo::change_to_file(link, &bytes("target"), &None).unwrap();
    assert!(matches!(f.special, Special::Symlink));
    assert_eq!((f.additions, f.deletions, f.status.letter()), (0, 1, 'D'));
}

#[test]
fn binary_files_and_submodules_have_no_lines() {
    let change = |kind| TreeChange::Modification {
        location: "m".to_string(),
        kind,
        previous_id: id(1),
        id: id(2),
    };
    let f = Repo::change_to_file(change(EntryKind::Blob), &bytes("a\0b"), &bytes("text")).unwrap();
    assert!(f.is_binary());
    assert_eq!(f.special, Special::Binary { old_size: 3, new_size: 4 });
    let d = Repo::load_file_diff(&f, &bytes("a\0b"), &bytes("text"), 3, false);
    assert!(d.lines.is_empty() && d.hunks.is_empty());
    assert_eq!(
        Repo::file_texts(&f, &bytes("a\0b"), &bytes("text")),
        (String::new(), String::new())
    );

    let f = Repo::change_to_file(change(EntryKind::Commit), &None, &None).unwrap();
    assert!(matches!(f.special, Special::Submodule));
    let d = Repo::load_file_diff(&f, &None, &None, 3, false);
    let texts: Vec<&str> = d.lines.iter().map(|l| l.content()).collect();
    assert_eq!(
        texts,
        vec![
            format!("Subproject commit {}", id(1).to_hex()),
            format!("Subproject commit {}", id(2).to_hex())
        ]
    );
    assert_eq!(d.hunks.len(), 1);
    assert_eq!(d.hunks[0].line_range, 0..2);
    assert_eq!(id(0xab).to_hex(), "ab".repeat(20));
}

#[test]
fn a_zero_far_into_a_file_does_not_make_it_binary() {
    let mut data = vec![b'a'; 8000];
    assert!(!looks_binary(&data));
    data.push(0);
    assert!(!looks_binary(&data));
    data[7999] = 0;
    assert!(looks_binary(&data));
}

#[test]
fn files_are_sorted_by_path_and_commits_are_capped() {
    let file = |path: &str| {
        let change = TreeChange::Addition {
            location: path.to_string(),
            kind: EntryKind::Blob,
            id: id(1),
        };
        Repo::change_to_file(change, &None, &bytes("x\n")).unwrap()
    };
    let files = vec![file("b"), file("a-b"), file("a/c"), file("a")];
    let commits = (0..10_001)
        .map(|i| commit_info(id(1), &bytes(" subject \n"), &bytes("someone\n"), Some(i)))
        .collect();
    let plan = Repo::resolve(&RangeSpec::parse(Some("x...y")), &None, &None).unwrap();
    let cs = Repo::build_changeset(id(1), id(2), plan, &files, commits);
    let paths: Vec<&str> = cs.files.iter().map(|f| f.path.as_str()).collect();
    assert_eq!(paths, vec!["a", "a/c", "a-b", "b"]);
    assert_eq!(cs.commits.len(), 10_000);
    assert_eq!(cs.commits[0].summary, "subject");
    assert_eq!((cs.base_name.as_str(), cs.head_name.as_str()), ("x", "y"));
    assert_eq!((cs.total_additions(), cs.total_deletions()), (4, 0));
    assert!(cs.totals_fit() && !cs.is_working);
    assert_eq!(cs.author_count(), 1);
    assert_eq!(cs.oldest_commit_secs(), Some(0));

    let cs = Repo::build_working_changeset(id(7), &Some("topic".to_string()), &files);
    assert_eq!((cs.base_name.as_str(), cs.head_name.as_str()), ("topic", "working tree"));
    assert!(cs.is_working && cs.commits.is_empty());
    assert_eq!(cs.oldest_commit_secs(), None);
    let missing = commit_info(id(1), &None, &None, None);
    assert_eq!((missing.summary.as_str(), missing.author.as_str(), missing.time_secs), ("", "", 0));
}

#[test]
fn whitespace_edits_can_be_left_out() {
    let (old, new) = ("a\n  b\nc\n", "a\n\tb\nC\n");
    let shown = build_file_diff(old, new, 3, false);
    assert_eq!(shown.lines.iter().filter(|l| l.is_change()).count(), 4);
    let left_out = build_file_diff(old, new, 3, true);
    let changed: Vec<&str> =
        left_out.lines.iter().filter(|l| l.is_change()).map(|l| l.content()).collect();
    assert_eq!(changed, vec!["c", "C"]);
    assert!(left_out.lines.iter().any(|l| l.content() == "\tb"));
}

#[test]
fn both_sides_can_be_read_off_a_diff() {
    let (old, new) = ("a\nb\nc\nd\n", "a\nx\nc\ny\nd\ne\n");
    let d = build_file_diff(old, new, 1, false);
    let left: Vec<&str> =
        d.lines.iter().filter(|l| l.old_lineno().is_some()).map(|l| l.content()).collect();
    let right: Vec<&str> =
        d.lines.iter().filter(|l| l.new_lineno().is_some()).map(|l| l.content()).collect();
    assert_eq!(left, old.lines().collect::<Vec<&str>>());
    assert_eq!(right, new.lines().collect::<Vec<&str>>());
}

#[test]
fn the_working_tree_is_compared_by_contents() {
    let change = |old: Option<u8>, new: Option<u8>| {
        working_change("f".to_string(), EntryKind::Blob, old.map(id), new.map(id))
    };
    assert!(change(None, None).is_none());
    assert!(change(Some(1), Some(1)).is_none());
    assert!(matches!(change(None, Some(1)), Some(TreeChange::Addition { .. })));
    assert!(matches!(change(Some(1), None), Some(TreeChange::Deletion { .. })));
    match change(Some(1), Some(2)) {
        Some(TreeChange::Modification { location, previous_id, id: new_id, .. }) => {
            assert_eq!(location, "f");
            assert_eq!(previous_id.to_hex(), "01".repeat(20));
            assert_eq!(new_id.to_hex(), "02".repeat(20));
        }
        _ => panic!("expected a modification"),
    }
}

#[test]
fn the_content_hash_is_that_of_the_changed_lines() {
    let expected = seahash::hash(b"p.rs\xff a\n-b c\n+b d\n");
    assert_eq!(content_hash("p.rs", "a\n  b   c\n", "a\nb d\n"), expected);
    let long: String = (0..50).map(|i| format!("line {i}\n")).collect();
    let mut bytes = b"q\xff".to_vec();
    for line in long.lines() {
        bytes.push(b'+');
        bytes.extend_from_slice(line.as_bytes());
        bytes.push(b'\n');
    }
    assert_eq!(content_hash("q", "", &long), seahash::hash(&bytes));
}

#[test]
fn a_lone_carriage_return_ends_a_line_of_the_diff() {
    let d = build_file_diff("a\rb\n", "a\rc\n", 3, false);
    let texts: Vec<&str> = d.lines.iter().map(|l| l.content()).collect();
    assert_eq!(texts, vec!["a\r", "b", "c"]);
    let d = build_file_diff("a\r\nb\r\n", "a\r\nc\r\n", 3, false);
    let texts: Vec<&str> = d.lines.iter().map(|l| l.content()).collect();
    assert_eq!(texts, vec!["a", "b", "c"]);
}

#[test]
fn whitespace_only_edits_make_no_hunk() {
    let old: String = (0..150).map(|i| format!("let  x{i} =\t{i};\n")).collect();
    let new: String = (0..150).map(|i| format!("   let x{i} = {i};  \r\n")).collect();
    assert!(!build_file_diff(&old, &new, 3, false).hunks.is_empty());
    let d = build_file_diff(&old, &new, 3, true);
    assert!(d.hunks.is_empty());
    assert!(d.lines.iter().all(|l| !l.is_change()));
    assert_eq!(d.lines.len(), 150);
    assert!(build_file_diff("", "", 0, true).hunks.is_empty());
    assert_eq!(build_file_diff("a b\n", "ab\n", 3, true).hunks.len(), 1);
}

#[test]
fn a_diff_shows_as_many_changes_as_are_counted() {
    let texts = ["", "a\nb\nc\n", "a\nB\nc\nd\n", "x\n", "c\nb\na", "a\n\nb\r\nc\n"];
    for old in texts {
        for new in texts {
            let d = build_file_diff(old, new, 1, false);
            let added = d.lines.iter().filter(|l| matches!(l, DiffLine::Added { .. })).count();
            let removed = d.lines.iter().filter(|l| matches!(l, DiffLine::Removed { .. })).count();
            assert_eq!((added, removed), count_stats(old, new), "{old:?} {new:?}");
        }
    }
}

#[test]
fn lines_are_normalized_by_their_words() {
    assert_eq!(normalize_line("  a \t b\u{2003}c\r"), "a b c");
    assert_eq!(normalize_line(" \t "), "");
    for s in ["", " ", "a", "  a b\t c  ", "\u{a0}x\u{3000}\u{85}y"] {
        let n = normalize_line(s);
        assert_eq!(normalize_line(&n), n);
        assert_eq!(
            n.split_whitespace().collect::<Vec<&str>>(),
            s.split_whitespace().collect::<Vec<&str>>()
        );
    }
    assert_ne!(normalize_line("a b"), normalize_line("ab"));
}
