use rudiff::style::{Color, Style};
use rudiff::syntax::{paint, HlEvent, Lang, Syntax, Verb};
use rudiff::theme::Theme;

fn syntax() -> Syntax {
    Syntax::new(&Theme::detect(&None, &None))
}

#[test]
fn detects_languages() {
    assert_eq!(Lang::from_path("a/b.rs"), Some(Lang::Rust));
    assert_eq!(Lang::from_path("x.tsx"), Some(Lang::Tsx));
    assert_eq!(Lang::from_path("README.md"), None);
}

#[test]
fn extracts_rust_symbols() {
    let s = syntax();
    let src = "struct Session;\nfn refresh_session() {}\nimpl Session { fn go(&self) {} }\n";
    let syms = s.analyze(src, Lang::Rust).defines;
    assert!(syms.contains(&"Session".to_string()));
    assert!(syms.contains(&"refresh_session".to_string()));
    assert!(syms.contains(&"go".to_string()));
}

#[test]
fn function_context_for_rust() {
    let s = syntax();
    let src = "impl Store {\n    fn refresh(&self) {\n        let x = 1;\n    }\n}\n";
    let ctx = s.contexts(src, Lang::Rust, &vec![2])[0].clone().unwrap();
    assert!(ctx.contains("refresh"), "got: {ctx}");
    assert!(ctx.contains("Store"), "got: {ctx}");
}

#[test]
fn highlights_without_panicking() {
    let mut s = syntax();
    let lines = s.highlight("fn main() { let x = 1; }\n", Lang::Rust).unwrap();
    assert!(!lines.is_empty());
    assert!(lines[0].iter().any(|(t, _)| t.contains("fn") || t.contains("main")));
}

#[test]
fn extensions_are_read_in_any_case() {
    for (path, lang) in [
        ("a.MJS", Lang::JavaScript),
        ("a.jsx", Lang::JavaScript),
        ("a.ts", Lang::TypeScript),
        ("a.pyi", Lang::Python),
        ("a.go", Lang::Go),
        ("A.java", Lang::Java),
    ] {
        assert_eq!(Lang::from_path(path), Some(lang));
    }
    assert_eq!(Lang::from_path("rs"), None);
    assert_eq!(Lang::from_path(".rs"), None);
}

#[test]
fn highlighting_keeps_the_text() {
    let mut s = syntax();
    for (lang, src) in [
        (Lang::Rust, "fn main() {\n    let s = \"a\";\n}\n"),
        (Lang::JavaScript, "function f(a) { return a + 1; }\n"),
        (Lang::TypeScript, "interface A { x: number }\n"),
        (Lang::Tsx, "type A = string;\n"),
        (Lang::Python, "def f(x):\n    return x\n"),
        (Lang::Go, "package main\n\nfunc main() {}\n"),
        (Lang::Java, "class A { void f() {} }\n"),
    ] {
        let lines = s.highlight(src, lang).unwrap();
        let text: Vec<String> = lines
            .iter()
            .map(|l| l.iter().map(|(t, _)| t.as_str()).collect())
            .collect();
        assert_eq!(text.join("\n"), src);
        assert!(lines.iter().flatten().any(|(_, st)| st.fg.is_some()), "{lang:?}");
    }
}

#[test]
fn painting_nests_styles_and_splits_lines() {
    let red = Style { fg: Some(Color::Red), bg: None, bold: false, italic: false };
    let blue = Style { fg: Some(Color::Blue), bg: None, bold: false, italic: false };
    let events = vec![
        HlEvent::Source("a".to_string()),
        HlEvent::Start(0),
        HlEvent::Source("b\nc".to_string()),
        HlEvent::Start(1),
        HlEvent::Source("d".to_string()),
        HlEvent::End,
        HlEvent::Source("e".to_string()),
        HlEvent::End,
    ];
    let lines = paint(&events, &vec![red, blue]);
    assert_eq!(lines.len(), 2);
    assert_eq!(lines[0][0].0, "a");
    assert!(lines[0][0].1.fg.is_none());
    assert_eq!(lines[0][1].0, "b");
    assert_eq!(lines[0][1].1.fg, Some(Color::Red));
    assert_eq!(lines[1][0].0, "c");
    assert_eq!(lines[1][1].0, "d");
    assert_eq!(lines[1][1].1.fg, Some(Color::Blue));
    assert_eq!(lines[1][2].0, "e");
    assert_eq!(lines[1][2].1.fg, Some(Color::Red));
}

#[test]
fn calls_imports_and_uses_are_told_apart() {
    let s = syntax();
    let facts = s.analyze(
        "use store::Session;\nfn run() { refresh(); let x = OTHER; }\n",
        Lang::Rust,
    );
    assert!(facts.calls.contains(&"refresh".to_string()));
    assert!(!facts.calls.contains(&"OTHER".to_string()));
    assert!(facts.imports.contains(&"Session".to_string()));
    assert!(facts.uses.contains(&"OTHER".to_string()));
    assert_eq!(facts.defines, vec!["run".to_string()]);
    assert_eq!(Verb::Calls.label(), "calls");
}

#[test]
fn symbols_are_sorted_and_listed_once() {
    let s = syntax();
    let facts = s.analyze("fn b() {}\nmod m { fn a() {} }\nmod n { fn b() {} }\n", Lang::Rust);
    let mut sorted = facts.defines.clone();
    sorted.sort();
    sorted.dedup();
    assert_eq!(facts.defines, sorted);
    assert!(facts.defines.contains(&"a".to_string()));
}

#[test]
fn contexts_of_other_languages() {
    let s = syntax();
    let py = "class A:\n    def f(self):\n        return 1\n";
    let ctx = s.contexts(py, Lang::Python, &vec![2, 0]);
    assert!(ctx[0].as_ref().unwrap().contains('f'));
    let go = "package m\n\nfunc Run() {\n\tx := 1\n}\n";
    let ctx = s.contexts(go, Lang::Go, &vec![3]);
    assert!(ctx[0].as_ref().unwrap().contains("Run"));
}
