use rudiff::commit::first_line;
use rudiff::util::{bar, commas, format_bytes, plural, relative_age, truncate_left, truncate_right};

#[test]
fn commas_works() {
    assert_eq!(commas(0), "0");
    assert_eq!(commas(999), "999");
    assert_eq!(commas(1247), "1,247");
    assert_eq!(commas(1234567), "1,234,567");
}

#[test]
fn truncate_left_keeps_tail() {
    assert_eq!(truncate_left("src/auth/session.rs", 100), "src/auth/session.rs");
    let t = truncate_left("src/auth/session.rs", 12);
    assert!(t.starts_with('…'));
    assert!(t.ends_with("session.rs"));
    assert!(t.chars().count() <= 12);
}

#[test]
fn bar_fills() {
    let cells = |ratio: f64| (ratio * 4.0).round() as usize;
    assert_eq!(bar(cells(0.0), 4, '#', '.'), "....");
    assert_eq!(bar(cells(1.0), 4, '#', '.'), "####");
    assert_eq!(bar(cells(0.5), 4, '#', '.'), "##..");
}

#[test]
fn first_line_picks_first_nonempty() {
    assert_eq!(first_line("\n\n  hello \nworld"), Some("hello".to_string()));
    assert_eq!(first_line("   "), None);
    assert_eq!(first_line(""), None);
}

#[test]
fn bar_never_overflows_its_width() {
    assert_eq!(bar(9, 4, '#', '.'), "####");
    assert_eq!(bar(3, 0, '#', '.'), "");
}

#[test]
fn plural_takes_an_s_but_for_one() {
    assert_eq!(plural(1, "author"), "1 author");
    assert_eq!(plural(3, "author"), "3 authors");
    assert_eq!(plural(0, "file"), "0 files");
}

#[test]
fn relative_age_uses_the_largest_unit() {
    assert_eq!(relative_age(100, 100), "just now");
    assert_eq!(relative_age(200, 100), "in the future");
    assert_eq!(relative_age(0, 59), "just now");
    assert_eq!(relative_age(0, 60), "1m ago");
    assert_eq!(relative_age(0, 3 * 3600 + 5), "3h ago");
    assert_eq!(relative_age(0, 4 * 86_400), "4d ago");
    assert_eq!(relative_age(0, 8 * 86_400), "1w ago");
    assert_eq!(relative_age(0, 65 * 86_400), "2mo ago");
    assert_eq!(relative_age(0, 800 * 86_400), "2y ago");
    assert_eq!(relative_age(i64::MIN, i64::MAX), format!("{}y ago", i64::MAX / 31_536_000));
}

fn bytes_by_floats(n: u64) -> String {
    let units = ["B", "KB", "MB", "GB", "TB"];
    if n < 1024 {
        return format!("{n} B");
    }
    let mut size = n as f64;
    let mut unit = 0;
    while size >= 1024.0 && unit < units.len() - 1 {
        size /= 1024.0;
        unit += 1;
    }
    format!("{size:.1} {}", units[unit])
}

#[test]
fn format_bytes_agrees_with_floating_point() {
    assert_eq!(format_bytes(840), "840 B");
    assert_eq!(format_bytes(1_258_291), "1.2 MB");
    let mut n: u64 = 1;
    while n < u64::MAX / 3 {
        for d in 0..40 {
            for m in [n.saturating_sub(d), n + d, n + n / 4 + d, n + n / 20 + d, n * 2 - 1 - d % 2] {
                assert_eq!(format_bytes(m), bytes_by_floats(m), "{m}");
            }
        }
        n = n * 2 + 1;
        if n % 3 == 0 {
            n += 1;
        }
    }
    for k in 0..5000u64 {
        assert_eq!(format_bytes(k * 64 + 1024), bytes_by_floats(k * 64 + 1024));
    }
    assert_eq!(format_bytes(u64::MAX), bytes_by_floats(u64::MAX));
    assert_eq!(format_bytes(1_099_511_627_775), bytes_by_floats(1_099_511_627_775));
}

#[test]
fn truncation_keeps_what_fits() {
    assert_eq!(truncate_right("hello world", 6), "hello…");
    assert_eq!(truncate_left("hello world", 6), "…world");
    assert_eq!(truncate_right("hello", 0), "");
    assert_eq!(truncate_left("hello", 0), "");
    // Wide characters take two columns each.
    assert_eq!(truncate_right("漢字漢字", 5), "漢字…");
    assert_eq!(truncate_left("漢字漢字", 4), "…字");
}
