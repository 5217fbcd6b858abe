use rudiff::order::{key_leq, sort_by_keys};
use rudiff::path::{extension, join_path, parent, push_path_key, push_text_key};
use rudiff::text::{
    ascii_lower, byte_len, chars_of, contains, decimal, ends_with, find, head_bytes, hex, is_white,
    join, lines, pad_left, pad_right, parse, repeat, rfind_char, signed, split, starts_with, trim,
    trim_start, words,
};
use rudiff::width::{char_width, head_end, tail_start};

const SAMPLES: [&str; 12] = [
    "",
    " ",
    "a",
    "  a b\t c  ",
    "one\ntwo\n",
    "one\r\ntwo\r\n\r\n",
    "\n\n",
    "last without end",
    "é漢字 x\u{2003}y",
    "a,b,,c",
    "..",
    "x\ry\n",
];

#[test]
fn white_space_is_that_of_unicode() {
    for c in '\0'..=char::MAX {
        assert_eq!(is_white(c), c.is_whitespace(), "{c:?}");
    }
}

#[test]
fn texts_are_cut_like_the_standard_does() {
    for s in SAMPLES {
        assert_eq!(trim(s), s.trim(), "{s:?}");
        assert_eq!(trim_start(s), s.trim_start(), "{s:?}");
        assert_eq!(lines(s), s.lines().collect::<Vec<&str>>(), "{s:?}");
        assert_eq!(words(s), s.split_whitespace().collect::<Vec<&str>>(), "{s:?}");
        assert_eq!(split(s, ','), s.split(',').collect::<Vec<&str>>(), "{s:?}");
        assert_eq!(byte_len(s), s.len(), "{s:?}");
        assert_eq!(ascii_lower(s), s.to_ascii_lowercase(), "{s:?}");
        for t in SAMPLES {
            assert_eq!(contains(s, t), s.contains(t), "{s:?} {t:?}");
            assert_eq!(starts_with(s, t), s.starts_with(t), "{s:?} {t:?}");
            assert_eq!(ends_with(s, t), s.ends_with(t), "{s:?} {t:?}");
        }
    }
    assert_eq!(find(&chars_of("abcabc"), &chars_of("ca")), Some(2));
    assert_eq!(find(&chars_of("abc"), &chars_of("d")), None);
    assert_eq!(rfind_char(&chars_of("a/b/c"), 0, 5, '/'), Some(3));
    assert_eq!(rfind_char(&chars_of("a/b/c"), 0, 1, '/'), None);
}

#[test]
fn a_prefix_ends_on_a_character() {
    let cs = chars_of("aé漢b");
    let heads: Vec<usize> = (0..9).map(|max| head_bytes(&cs, max)).collect();
    assert_eq!(heads, vec![0, 1, 1, 2, 2, 2, 3, 4, 4]);
}

#[test]
fn numbers_are_written_and_read() {
    for n in [0u64, 7, 10, 99, 100, 65_535, u64::MAX] {
        assert_eq!(decimal(n), n.to_string());
        assert_eq!(hex(n, 16), format!("{n:016x}"));
        assert_eq!(parse(&decimal(n), 10, u64::MAX), Some(n));
        assert_eq!(parse(&hex(n, 16), 16, u64::MAX), Some(n));
    }
    for n in [0i32, -1, 42, i32::MIN, i32::MAX] {
        assert_eq!(signed(n), n.to_string());
    }
    for s in ["", "+", "+7", "007", "-1", "1 ", "255", "256", "1a", "99999999999999999999999"] {
        assert_eq!(parse(s, 10, 255), s.parse::<u8>().ok().map(u64::from), "{s:?}");
    }
    for s in ["ff", "FF", "+a", "g", "", "1000000000000000000"] {
        assert_eq!(parse(s, 16, u64::MAX), u64::from_str_radix(s, 16).ok(), "{s:?}");
    }
    assert_eq!(repeat('x', 3), "xxx");
    assert_eq!(pad_left("ab", 4), format!("{:>4}", "ab"));
    assert_eq!(pad_right("é漢", 4), format!("{:<4}", "é漢"));
    assert_eq!(pad_left("abcdef", 4), "abcdef");
    assert_eq!(join(&["a".to_string(), "b".to_string()], " · "), "a · b");
    for s in SAMPLES {
        assert_eq!(join(&split(s, '\n'), "\n"), s);
    }
}

const PATHS: [&str; 20] = [
    "",
    "/",
    "a",
    "a.rs",
    ".gitignore",
    "a/b",
    "a/b.tar.gz",
    "a-b/c",
    "a/.hidden.txt",
    "/a/b",
    "a//b",
    "a/./b",
    "./a",
    "a/",
    "a/..",
    "..",
    "a.",
    "a/b/",
    "a.b/c",
    "é/ü.rs",
];

#[test]
fn paths_are_read_like_the_standard_does() {
    for p in PATHS {
        let std = std::path::Path::new(p);
        assert_eq!(
            extension(p),
            std.extension().map(|e| e.to_str().unwrap().to_string()),
            "{p:?}"
        );
        assert_eq!(
            parent(p),
            std.parent().map(|e| e.to_str().unwrap().to_string()),
            "{p:?}"
        );
        assert_eq!(join_path(p, "x"), std.join("x").to_str().unwrap(), "{p:?}");
    }
}

#[test]
fn keys_order_paths_by_component_and_texts_by_character() {
    for a in PATHS {
        for b in PATHS {
            let (mut ka, mut kb): (Vec<u64>, Vec<u64>) = (Vec::new(), Vec::new());
            push_path_key(&mut ka, a);
            push_path_key(&mut kb, b);
            assert_eq!(
                key_leq(&ka, &kb),
                std::path::Path::new(a) <= std::path::Path::new(b),
                "{a:?} {b:?}"
            );
            let (mut ta, mut tb): (Vec<u64>, Vec<u64>) = (Vec::new(), Vec::new());
            push_text_key(&mut ta, a);
            push_text_key(&mut tb, b);
            assert_eq!(key_leq(&ta, &tb), a <= b, "{a:?} {b:?}");
        }
    }
}

#[test]
fn sorting_is_stable() {
    let keys: Vec<Vec<u64>> = vec![vec![2], vec![1], vec![2], vec![1, 0], vec![1]];
    assert_eq!(sort_by_keys(&vec![0, 1, 2, 3, 4], &keys), vec![1, 4, 3, 0, 2]);
}

#[test]
fn widths_are_those_of_the_terminal() {
    assert_eq!(char_width('a'), 1);
    assert_eq!(char_width('漢'), 2);
    assert_eq!(char_width('\u{301}'), 0);
    assert_eq!(char_width('\t'), 0);
    let cs = chars_of("漢字ab");
    assert_eq!((0..8).map(|b| head_end(&cs, b)).collect::<Vec<usize>>(), vec![
        0, 0, 1, 1, 2, 3, 4, 4
    ]);
    assert_eq!((0..8).map(|b| tail_start(&cs, b)).collect::<Vec<usize>>(), vec![
        4, 3, 2, 2, 1, 1, 0, 0
    ]);
}
