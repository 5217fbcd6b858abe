use rudiff::style::Line;
use rudiff::theme::Theme;
use rudiff::ui::markdown::render;

fn theme() -> Theme {
    Theme::detect(&None, &None)
}

fn plain(line: &Line) -> String {
    line.spans.iter().map(|s| s.content.as_str()).collect()
}

#[test]
fn formats_common_markdown() {
    let md = "## Heading\n- a **bold** item\n`code` here\n> quote\nplain";
    let lines = render(md, &theme());
    assert_eq!(plain(&lines[0]), "Heading");
    assert!(plain(&lines[1]).starts_with("• "));
    assert!(plain(&lines[1]).contains("bold"));
    assert!(plain(&lines[2]).contains("code"));
    assert!(plain(&lines[3]).contains("quote"));
    assert_eq!(plain(&lines[4]), "plain");
}

#[test]
fn code_fence_hides_markers_and_styles_body() {
    let lines = render("before\n```\nlet x = 1;\n```\nafter", &theme());
    let texts: Vec<String> = lines.iter().map(plain).collect();
    assert!(texts.iter().all(|t| !t.contains("```")));
    assert!(texts.iter().any(|t| t.contains("let x = 1;")));
    assert_eq!(texts, vec!["before", "  let x = 1;", "after"]);
    assert_eq!(lines[1].spans[0].style.bg, Some(theme().bg_selected));
}

#[test]
fn unmatched_markers_render_literally() {
    let lines = render("a **bold that never closes", &theme());
    assert!(plain(&lines[0]).contains("bold that never closes"));
}

#[test]
fn inline_markers_style_what_they_enclose() {
    let base = rudiff::style::Style::plain();
    let spans = rudiff::ui::markdown::inline("a *b* **c** `d*` e", base, &theme());
    let texts: Vec<&str> = spans.iter().map(|s| s.content.as_str()).collect();
    assert_eq!(texts, vec!["a ", "b", " ", "c", " ", "d*", " e"]);
    assert!(spans[1].style.italic && !spans[1].style.bold);
    assert!(spans[3].style.bold && !spans[3].style.italic);
    assert_eq!(spans[5].style.bg, Some(theme().bg_selected));
    assert_eq!(rudiff::ui::markdown::inline("", base, &theme()).len(), 1);
    assert_eq!(rudiff::ui::markdown::inline("no markers", base, &theme())[0].content, "no markers");
}

#[test]
fn headings_need_a_space_and_at_most_six_hashes() {
    let lines = render("###### six\n####### seven\n#none\n  # in", &theme());
    assert_eq!(plain(&lines[0]), "six");
    assert!(lines[0].spans[0].style.bold);
    assert_eq!(plain(&lines[1]), "####### seven");
    assert_eq!(plain(&lines[2]), "#none");
    assert_eq!(plain(&lines[3]), "in");
}

#[test]
fn lists_keep_their_indent() {
    let lines = render("  - a\n\t* b\n+ c\n-d\n1. e", &theme());
    assert_eq!(plain(&lines[0]), "  • a");
    assert_eq!(plain(&lines[1]), " • b");
    assert_eq!(plain(&lines[2]), "• c");
    assert_eq!(plain(&lines[3]), "-d");
    assert_eq!(plain(&lines[4]), "1. e");
}
