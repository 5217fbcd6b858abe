use rudiff::explain::{
    build_prompt, render_unified, Assistant, Explain, ExplainModel, Msg, MAX_DIFF_BYTES,
};
use rudiff::git::diff::build_file_diff;

fn helper() -> Assistant {
    Assistant { program: "helper".to_string(), name: "Helper".to_string() }
}

fn prompt(model: Option<ExplainModel>) -> Explain {
    Explain::prompt(
        "Explain.".to_string(),
        "+x\n".to_string(),
        "a.rs".to_string(),
        model,
    )
}

fn answer(text: &str) -> Explain {
    let mut e = Explain::start(&helper(), "t".to_string(), None, Ok(()));
    e.receive(Msg::Out(text.to_string()));
    e.receive(Msg::Errors(String::new()));
    e.poll("helper", true);
    e
}

#[test]
fn render_unified_produces_diff_text() {
    let fd = build_file_diff("a\nb\nc\n", "a\nB\nc\n", 3, false);
    let text = render_unified("x.rs", &fd);
    assert!(text.contains("--- a/x.rs"));
    assert!(text.contains("+++ b/x.rs"));
    assert!(text.contains("@@ "));
    assert!(text.contains("-b"));
    assert!(text.contains("+B"));
    assert!(text.contains(" a"));
}

#[test]
fn unified_text_is_that_of_git() {
    let fd = build_file_diff("a\nb\nc\n", "a\nB\nc\n", 3, false);
    assert_eq!(
        render_unified("x.rs", &fd),
        "--- a/x.rs\n+++ b/x.rs\n@@ -1,3 +1,3 @@\n a\n-b\n+B\n c\n"
    );
}

#[test]
fn missing_program_yields_error_result() {
    let mut e = Explain::start(&helper(), "x".to_string(), None, Err("not found".to_string()));
    e.poll("helper", false);
    assert!(e.is_active());
    assert!(!e.is_running());
    match &e {
        Explain::Result(a) => {
            assert!(a.is_error);
            assert_eq!(
                a.text,
                "Couldn't run `helper`: not found\n\n\
                 The Helper Code CLI must be installed and on your PATH for this to work."
            );
        }
        _ => panic!("expected an answer"),
    }
    e.cancel();
    assert!(e.is_idle());
}

#[test]
fn models_are_known_by_name() {
    assert_eq!(ExplainModel::from_name("Haiku"), Some(ExplainModel::Haiku));
    assert_eq!(ExplainModel::from_name("SONNET"), Some(ExplainModel::Sonnet));
    assert_eq!(ExplainModel::from_name("opus"), Some(ExplainModel::Opus));
    assert_eq!(ExplainModel::from_name("other"), None);
    assert_eq!(ExplainModel::Opus.alias(), "opus");
}

#[test]
fn a_long_diff_is_cut_at_a_line() {
    let line = "x".repeat(99) + "\n";
    let diff = line.repeat(1000);
    let text = build_prompt("Explain.", &diff);
    assert!(text.starts_with("Explain.\n\n```diff\n"));
    assert!(text.ends_with("\n… (diff truncated)\n```\n"));
    let body = &text["Explain.\n\n```diff\n".len()..text.len() - "\n… (diff truncated)\n```\n".len()];
    assert!(body.len() <= MAX_DIFF_BYTES);
    assert_eq!(body.len() % 100, 99);
    assert_eq!(build_prompt("Do.", "+x\n"), "Do.\n\n```diff\n+x\n```\n");
}

#[test]
fn guidance_is_part_of_the_question() {
    let mut e = prompt(Some(ExplainModel::Sonnet));
    for c in "edge cases".chars() {
        e.input_push(c);
    }
    e.input_push('!');
    e.input_backspace();
    let args = match &e {
        Explain::Prompting(g) => g.query(),
        _ => panic!("expected a prompt"),
    };
    assert!(args.iter().any(|a| a.contains("edge cases") && !a.contains('!')));
    assert!(args.contains(&"sonnet".to_string()));
    let plain = match &prompt(None) {
        Explain::Prompting(g) => g.query(),
        _ => panic!("expected a prompt"),
    };
    assert!(!plain.contains(&"sonnet".to_string()));
}

#[test]
fn an_answer_arrives_in_parts() {
    let mut e = Explain::start(&helper(), "t".to_string(), None, Ok(()));
    assert!(e.is_running());
    e.receive(Msg::Chunk("Hel".to_string()));
    e.receive(Msg::Chunk("lo".to_string()));
    match &e {
        Explain::Running(r) => assert_eq!(r.partial, "Hello"),
        _ => panic!("expected a running query"),
    }
    e.poll("helper", true);
    assert!(e.is_running());
    e.receive(Msg::Out("Hello".to_string()));
    assert!(!e.is_ended());
    e.receive(Msg::Errors(String::new()));
    assert!(e.is_ended());
    e.poll("helper", true);
    match &e {
        Explain::Result(a) => {
            assert_eq!(a.text, "Hello");
            assert!(!a.is_error);
        }
        _ => panic!("expected an answer"),
    }
}

#[test]
fn a_failure_shows_what_was_said() {
    let mut e = Explain::start(&helper(), "t".to_string(), None, Ok(()));
    e.receive(Msg::Out(String::new()));
    e.receive(Msg::Errors("no key\n".to_string()));
    e.poll("helper", false);
    match &e {
        Explain::Result(a) => {
            assert!(a.is_error);
            assert!(a.text.contains("no key"));
        }
        _ => panic!("expected an answer"),
    }
}

#[test]
fn an_answer_can_be_scrolled_and_saved() {
    let mut e = answer("text");
    e.scroll_by(-1);
    e.scroll_by(3);
    e.scroll_by(-1);
    match &e {
        Explain::Result(a) => assert_eq!(a.scroll, 2),
        _ => panic!("expected an answer"),
    }
    assert!(e.save_request().is_none());
    e.start_save();
    assert!(e.is_saving());
    e.save_input_backspace();
    e.save_input_push('D');
    let (name, text) = e.save_request().unwrap();
    assert_eq!(name, "explanation.mD");
    assert_eq!(text, "text");
    e.confirm_save(Ok("/tmp/x".to_string()));
    assert!(!e.is_saving());
    match &e {
        Explain::Result(a) => assert_eq!(a.notice, Some("saved to /tmp/x".to_string())),
        _ => panic!("expected an answer"),
    }
    e.start_save();
    e.cancel_save();
    assert!(!e.is_saving());
    e.start_save();
    e.confirm_save(Err("denied".to_string()));
    match &e {
        Explain::Result(a) => assert_eq!(a.notice, Some("save failed: denied".to_string())),
        _ => panic!("expected an answer"),
    }
    e.dismiss();
    assert!(e.is_idle());
}

#[test]
fn a_running_query_is_polled_faster_and_awaited_for_a_while() {
    let waiting = prompt(None);
    assert_eq!(waiting.poll_millis(), 150);
    assert!(!waiting.is_awaited(0));
    let e = Explain::start(&helper(), "t".to_string(), None, Ok(()));
    assert_eq!(e.poll_millis(), 80);
    assert!(e.is_awaited(0) && e.is_awaited(89_999) && !e.is_awaited(90_000));
}

#[test]
fn failures_name_the_program() {
    for (out, err, text) in [
        ("", "no key\n", "`helper` reported an error:\n\nno key"),
        (" \n", "", "`helper` returned no output."),
    ] {
        let mut e = Explain::start(&helper(), "t".to_string(), None, Ok(()));
        e.receive(Msg::Out(out.to_string()));
        e.receive(Msg::Errors(err.to_string()));
        e.poll("helper", true);
        match &e {
            Explain::Result(a) => assert!(a.is_error && a.text == text, "{}", a.text),
            _ => panic!("expected an answer"),
        }
    }
}
