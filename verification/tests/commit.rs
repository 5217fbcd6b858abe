use rudiff::commit::{git_error, head_summary, run_commit, Commit, GitOutput, Stage, Step};

fn output(success: bool, code: Option<i32>, stdout: &str, stderr: &str) -> GitOutput {
    GitOutput { success, code, stdout: stdout.as_bytes().to_vec(), stderr: stderr.as_bytes().to_vec() }
}

fn run(step: Step) -> (Stage, Vec<String>) {
    match step {
        Step::Run(stage, args) => (stage, args),
        _ => panic!("expected a run"),
    }
}

/// The three runs of a commit, which name the paths that are given and no others.
#[test]
fn commit_runs_name_only_the_given_paths() {
    let files = vec!["tracked.txt".to_string(), "gone.txt".to_string(), "new.txt".to_string()];
    let message = "first batch";
    let (stage, args) = run(run_commit(&files, message, None));
    assert_eq!(args, vec!["add", "--", "tracked.txt", "gone.txt", "new.txt"]);
    let ok = output(true, Some(0), "", "");
    let (stage, args) = run(run_commit(&files, message, Some((stage, Ok(ok)))));
    assert_eq!(
        args,
        vec!["commit", "-m", "first batch", "--", "tracked.txt", "gone.txt", "new.txt"]
    );
    let ok = output(true, Some(0), "[main abc] first batch\n", "");
    let (stage, args) = run(run_commit(&files, message, Some((stage, Ok(ok)))));
    assert_eq!(args, vec!["log", "-1", "--pretty=%h %s"]);
    let ok = output(true, Some(0), "abc1234 first batch\n", "");
    match run_commit(&files, message, Some((stage, Ok(ok)))) {
        Step::Committed(summary) => assert_eq!(summary, "abc1234 first batch"),
        _ => panic!("expected a commit"),
    }
}

#[test]
fn a_failed_run_ends_the_commit() {
    let files = vec!["a".to_string()];
    let failed = |stage, result| match run_commit(&files, "m", Some((stage, result))) {
        Step::Failed(message) => message,
        _ => panic!("expected a failure"),
    };
    assert_eq!(failed(Stage::Add, Err("no such file".to_string())), "could not run git: no such file");
    assert_eq!(
        failed(Stage::Commit, Err("no such file".to_string())),
        "could not run git: no such file"
    );
    assert_eq!(
        failed(Stage::Add, Ok(output(false, Some(128), "", "fatal: pathspec\nmore\n"))),
        "git add: fatal: pathspec"
    );
    assert_eq!(
        failed(Stage::Commit, Ok(output(false, Some(1), "\nnothing to commit\n", ""))),
        "git commit: nothing to commit"
    );
}

#[test]
fn the_summary_of_a_commit_has_a_fallback() {
    assert_eq!(head_summary(&Ok(output(true, Some(0), " abc x \n", ""))), "abc x");
    assert_eq!(head_summary(&Ok(output(true, Some(0), " \n", ""))), "commit created");
    assert_eq!(head_summary(&Ok(output(false, Some(1), "abc", ""))), "commit created");
    assert_eq!(head_summary(&Err("gone".to_string())), "commit created");
}

#[test]
fn errors_fall_back_on_the_exit_code() {
    assert_eq!(git_error("git add", &output(false, Some(3), "", " \n")), "git add failed (exit 3)");
    assert_eq!(git_error("git add", &output(false, None, "", "")), "git add failed (exit -1)");
    let mut bad = output(false, Some(1), "", "");
    bad.stderr = vec![b'x', 0xff];
    assert_eq!(git_error("git", &bad), "git: x\u{fffd}");
}

#[test]
fn the_prompt_takes_a_message() {
    let mut c = Commit::prompt(vec!["a".to_string()]);
    assert!(c.is_prompting() && c.is_active() && !c.is_idle());
    c.set_notice("failed".to_string());
    for ch in "fix".chars() {
        c.input_push(ch);
    }
    c.input_backspace();
    match &c {
        Commit::Prompting(p) => {
            assert_eq!(p.input, "fi");
            assert_eq!(p.files, vec!["a"]);
            assert_eq!(p.notice.as_deref(), None);
        }
        _ => panic!("expected a prompt"),
    }
    let mut idle = Commit::Idle;
    idle.input_push('x');
    idle.set_notice("x".to_string());
    assert!(idle.is_idle() && !idle.is_active());
}
