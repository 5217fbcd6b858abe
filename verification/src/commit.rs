//! Committing the viewed files from the view of uncommitted changes: a message is collected, then
//! exactly those paths are staged and committed.
//!
//! The `git` program does the commit, since hooks, signing and the user's settings have a say in
//! it. This is the one place where the repository is written to, and only on a key press.
use vstd::prelude::*;
use vstd::string::*;

use crate::text;
use crate::text::{from_utf8_lossy, lines, signed, trim};

verus! {

broadcast use vstd::seq_lib::group_seq_properties;

/// The state of the commit prompt.
#[derive(Debug)]
pub enum Commit {
    Idle,
    /// Collecting the message for the captured files.
    Prompting(Prompting),
}

/// An open commit prompt.
#[derive(Debug)]
pub struct Prompting {
    /// The message being typed.
    pub input: String,
    /// The paths to commit, in display order, captured when the prompt opened.
    pub files: Vec<String>,
    /// An error to show until the next key press.
    pub notice: Option<String>,
}

/// The mathematical value of a [`Prompting`].
#[verifier::ext_equal]
pub ghost struct PromptingV {
    pub input: Seq<char>,
    pub files: Seq<Seq<char>>,
    pub notice: Option<Seq<char>>,
}

/// The mathematical value of a [`Commit`].
#[verifier::ext_equal]
pub ghost enum CommitV {
    Idle,
    Prompting(PromptingV),
}

impl DeepView for Prompting {
    type V = PromptingV;

    open spec fn deep_view(&self) -> PromptingV {
        PromptingV {
            input: self.input@,
            files: self.files.deep_view(),
            notice: self.notice.deep_view(),
        }
    }
}

impl DeepView for Commit {
    type V = CommitV;

    open spec fn deep_view(&self) -> CommitV {
        match self {
            Commit::Idle => CommitV::Idle,
            Commit::Prompting(p) => CommitV::Prompting(p.deep_view()),
        }
    }
}

impl CommitV {
    /// The prompt after a character was typed.
    pub open spec fn typed(self, c: char) -> CommitV {
        match self {
            CommitV::Prompting(p) => CommitV::Prompting(
                PromptingV { input: p.input.push(c), notice: None, ..p },
            ),
            CommitV::Idle => self,
        }
    }

    /// The prompt after the last character was taken back.
    pub open spec fn untyped(self) -> CommitV {
        match self {
            CommitV::Prompting(p) => CommitV::Prompting(
                PromptingV { input: pop_v(p.input), notice: None, ..p },
            ),
            CommitV::Idle => self,
        }
    }

    /// The prompt with a notice.
    pub open spec fn noticed(self, msg: Seq<char>) -> CommitV {
        match self {
            CommitV::Prompting(p) => CommitV::Prompting(PromptingV { notice: Some(msg), ..p }),
            CommitV::Idle => self,
        }
    }
}

/// A text without its last character.
pub open spec fn pop_v(s: Seq<char>) -> Seq<char> {
    if s.len() > 0 {
        s.drop_last()
    } else {
        s
    }
}

impl Commit {
    /// Opens the message prompt for captured files.
    pub fn prompt(files: Vec<String>) -> (r: Commit)
        ensures
            r.deep_view() == CommitV::Prompting(
                (PromptingV { input: Seq::empty(), files: files.deep_view(), notice: None }),
            ),
    {
        Commit::Prompting(Prompting { input: String::new(), files, notice: None })
    }

    pub fn is_idle(&self) -> (r: bool)
        ensures
            r == (self.deep_view() is Idle),
    {
        matches!(self, Commit::Idle)
    }

    /// Whether the prompt is shown and takes the keys.
    pub fn is_active(&self) -> (r: bool)
        ensures
            r == !(self.deep_view() is Idle),
    {
        !self.is_idle()
    }

    pub fn is_prompting(&self) -> (r: bool)
        ensures
            r == (self.deep_view() is Prompting),
    {
        matches!(self, Commit::Prompting(_))
    }

    pub fn input_push(&mut self, c: char)
        ensures
            final(self).deep_view() == old(self).deep_view().typed(c),
    {
        if let Commit::Prompting(p) = self {
            p.input.push(c);
            p.notice = None;
        }
    }

    pub fn input_backspace(&mut self)
        ensures
            final(self).deep_view() == old(self).deep_view().untyped(),
    {
        if let Commit::Prompting(p) = self {
            let _ = p.input.pop();
            p.notice = None;
        }
    }

    /// Shows a notice without closing the prompt.
    pub fn set_notice(&mut self, msg: String)
        ensures
            final(self).deep_view() == old(self).deep_view().noticed(msg@),
    {
        if let Commit::Prompting(p) = self {
            p.notice = Some(msg);
        }
    }
}

/// What a finished `git` process left behind.
#[derive(Debug)]
pub struct GitOutput {
    pub success: bool,
    /// The exit code, where it exited with one.
    pub code: Option<i32>,
    pub stdout: Vec<u8>,
    pub stderr: Vec<u8>,
}

/// The steps of a commit, each a run of `git`.
#[derive(Clone, Copy, PartialEq, Eq, Debug, Structural)]
pub enum Stage {
    /// Stage the paths.
    Add,
    /// Commit the staged paths.
    Commit,
    /// Ask for the new commit's summary.
    Log,
}

/// What to do next for a commit.
#[derive(Debug)]
pub enum Step {
    /// Run `git` with these arguments.
    Run(Stage, Vec<String>),
    /// The commit was made; the text says which.
    Committed(String),
    /// The commit failed; the text says why.
    Failed(String),
}

/// The mathematical value of a [`Step`].
#[verifier::ext_equal]
pub ghost enum StepV {
    Run(Stage, Seq<Seq<char>>),
    Committed(Seq<char>),
    Failed(Seq<char>),
}

impl DeepView for Step {
    type V = StepV;

    open spec fn deep_view(&self) -> StepV {
        match self {
            Step::Run(stage, args) => StepV::Run(*stage, args.deep_view()),
            Step::Committed(s) => StepV::Committed(s@),
            Step::Failed(s) => StepV::Failed(s@),
        }
    }
}

/// The first line that is not blank, without whitespace at its ends, among some lines.
pub open spec fn first_filled_v(ls: Seq<Seq<char>>) -> Option<Seq<char>>
    decreases ls.len(),
{
    if ls.len() == 0 {
        None
    } else if text::trim_v(ls[0]).len() > 0 {
        Some(text::trim_v(ls[0]))
    } else {
        first_filled_v(ls.drop_first())
    }
}

/// The first line of a text that is not blank, without whitespace at its ends.
pub open spec fn first_line_v(s: Seq<char>) -> Option<Seq<char>> {
    first_filled_v(text::lines_v(s))
}

/// The first line of `s` that is not blank, without whitespace at its ends; `None` if there is
/// none.
pub fn first_line(s: &str) -> (r: Option<String>)
    ensures
        r.deep_view() == first_line_v(s@),
{
    let ls = lines(s);
    let ghost all = ls.deep_view();
    let mut i: usize = 0;
    assert(all.skip(0) =~= all);
    while i < ls.len()
        invariant
            i <= ls@.len(),
            all == ls.deep_view(),
            all == text::lines_v(s@),
            first_filled_v(all) == first_filled_v(all.skip(i as int)),
        decreases ls@.len() - i,
    {
        assert(all[i as int] == ls@[i as int]@);
        let t = trim(ls[i].as_str());
        if !t.as_str().is_empty() {
            return Some(t);
        }
        assert(all.skip(i as int).drop_first() =~= all.skip(i + 1));
        i = i + 1;
    }
    None
}

/// One line on a failed run of `git`: the first line of its errors, else of its output, else its
/// exit code.
pub open spec fn git_error_v(
    what: Seq<char>,
    stderr: Seq<u8>,
    stdout: Seq<u8>,
    code: Option<i32>,
) -> Seq<char> {
    match first_line_v(text::trim_v(text::lossy_v(stderr))) {
        Some(line) => what + ": "@ + line,
        None => match first_line_v(text::trim_v(text::lossy_v(stdout))) {
            Some(line) => what + ": "@ + line,
            None => what + " failed (exit "@ + text::signed_v(
                match code {
                    Some(c) => c as int,
                    None => -1,
                },
            ) + ")"@,
        },
    }
}

/// `what`, a colon and a detail.
fn labelled(what: &str, detail: &str) -> (r: String)
    ensures
        r@ == what@ + ": "@ + detail@,
{
    let mut s = what.to_owned();
    s.append(": ");
    s.append(detail);
    s
}

/// One line on a failed run of `git` for the notice.
pub fn git_error(what: &str, out: &GitOutput) -> (r: String)
    ensures
        r@ == git_error_v(what@, out.stderr@, out.stdout@, out.code),
{
    let stderr = from_utf8_lossy(out.stderr.as_slice());
    let stdout = from_utf8_lossy(out.stdout.as_slice());
    let err = trim(stderr.as_str());
    let text = trim(stdout.as_str());
    match first_line(err.as_str()) {
        Some(line) => labelled(what, line.as_str()),
        None => match first_line(text.as_str()) {
            Some(line) => labelled(what, line.as_str()),
            None => {
                let code: i32 = match out.code {
                    Some(c) => c,
                    None => -1,
                };
                let mut s = what.to_owned();
                s.append(" failed (exit ");
                let n = signed(code);
                s.append(n.as_str());
                s.append(")");
                s
            },
        },
    }
}

/// The summary of the new commit: what `git log` printed, or a plain word where it failed or
/// printed nothing.
pub open spec fn head_summary_v(ran: bool, success: bool, stdout: Seq<u8>) -> Seq<char> {
    let s = text::trim_v(text::lossy_v(stdout));
    if ran && success && s.len() > 0 {
        s
    } else {
        "commit created"@
    }
}

/// The summary of the new commit from a run of `git log`.
pub fn head_summary(run: &Result<GitOutput, String>) -> (r: String)
    ensures
        r@ == (match run {
            Ok(o) => head_summary_v(true, o.success, o.stdout@),
            Err(_) => "commit created"@,
        }),
{
    if let Ok(o) = run {
        if o.success {
            let all = from_utf8_lossy(o.stdout.as_slice());
            let s = trim(all.as_str());
            if !s.as_str().is_empty() {
                return s;
            }
        }
    }
    "commit created".to_owned()
}

/// The arguments that stage the paths.
pub open spec fn add_args_v(files: Seq<Seq<char>>) -> Seq<Seq<char>> {
    seq!["add"@, "--"@] + files
}

/// The arguments that commit the paths and nothing else that is staged.
pub open spec fn commit_args_v(message: Seq<char>, files: Seq<Seq<char>>) -> Seq<Seq<char>> {
    seq!["commit"@, "-m"@, message, "--"@] + files
}

/// The arguments that ask for the last commit's short hash and subject.
pub open spec fn log_args_v() -> Seq<Seq<char>> {
    seq!["log"@, "-1"@, "--pretty=%h %s"@]
}

/// Appends a text to `args`.
fn push_arg(args: &mut Vec<String>, s: &str)
    ensures
        final(args).deep_view() == old(args).deep_view().push(s@),
{
    args.push(s.to_owned());
    assert(args.deep_view() =~= old(args).deep_view().push(s@));
}

/// Appends the texts of `list` to `args`.
fn push_args(args: &mut Vec<String>, list: &Vec<String>)
    ensures
        final(args).deep_view() == old(args).deep_view() + list.deep_view(),
{
    let mut i: usize = 0;
    while i < list.len()
        invariant
            i <= list@.len(),
            args.deep_view() =~= old(args).deep_view() + list.deep_view().take(i as int),
        decreases list@.len() - i,
    {
        push_arg(args, list[i].as_str());
        i = i + 1;
    }
    assert(list.deep_view().take(list@.len() as int) =~= list.deep_view());
}

/// The run that `git` is asked for at a stage.
pub open spec fn run_v(stage: Stage, files: Seq<Seq<char>>, message: Seq<char>) -> StepV {
    StepV::Run(
        stage,
        match stage {
            Stage::Add => add_args_v(files),
            Stage::Commit => commit_args_v(message, files),
            Stage::Log => log_args_v(),
        },
    )
}

/// What follows the run at a stage: the next run where it went well, else the failure.
pub open spec fn next_step_v(
    files: Seq<Seq<char>>,
    message: Seq<char>,
    stage: Stage,
    run: Result<GitOutput, String>,
) -> StepV {
    match stage {
        Stage::Log => StepV::Committed(
            match run {
                Ok(o) => head_summary_v(true, o.success, o.stdout@),
                Err(_) => "commit created"@,
            },
        ),
        _ => match run {
            Err(e) => StepV::Failed("could not run git: "@ + e@),
            Ok(o) => if o.success {
                run_v(
                    if stage == Stage::Add {
                        Stage::Commit
                    } else {
                        Stage::Log
                    },
                    files,
                    message,
                )
            } else {
                StepV::Failed(
                    git_error_v(
                        if stage == Stage::Add {
                            "git add"@
                        } else {
                            "git commit"@
                        },
                        o.stderr@,
                        o.stdout@,
                        o.code,
                    ),
                )
            },
        },
    }
}

/// The run of `git` for a stage.
fn git_run(stage: Stage, files: &Vec<String>, message: &str) -> (r: Step)
    ensures
        r.deep_view() == run_v(stage, files.deep_view(), message@),
{
    let mut args: Vec<String> = Vec::new();
    assert(args.deep_view() =~= Seq::empty());
    match stage {
        Stage::Add => {
            push_arg(&mut args, "add");
            push_arg(&mut args, "--");
            push_args(&mut args, files);
        },
        Stage::Commit => {
            push_arg(&mut args, "commit");
            push_arg(&mut args, "-m");
            push_arg(&mut args, message);
            push_arg(&mut args, "--");
            push_args(&mut args, files);
        },
        Stage::Log => {
            push_arg(&mut args, "log");
            push_arg(&mut args, "-1");
            push_arg(&mut args, "--pretty=%h %s");
        },
    }
    Step::Run(stage, args)
}

/// Commits exactly `files` with `message`: given what the last run of `git` came to (none at the
/// start), says what to do next. The paths are staged (additions, edits and deletions alike), then
/// committed by path, so that anything else that is staged stays out of the commit; then the new
/// commit is asked for its short hash and subject.
pub fn run_commit(
    files: &Vec<String>,
    message: &str,
    last: Option<(Stage, Result<GitOutput, String>)>,
) -> (r: Step)
    ensures
        r.deep_view() == (match last {
            None => run_v(Stage::Add, files.deep_view(), message@),
            Some((stage, run)) => next_step_v(files.deep_view(), message@, stage, run),
        }),
{
    match last {
        None => git_run(Stage::Add, files, message),
        Some((stage, run)) => {
            match stage {
                Stage::Log => Step::Committed(head_summary(&run)),
                _ => match run {
                    Err(e) => {
                        let mut s = "could not run git: ".to_owned();
                        s.append(e.as_str());
                        Step::Failed(s)
                    },
                    Ok(o) => {
                        if o.success {
                            let next = if matches!(stage, Stage::Add) {
                                Stage::Commit
                            } else {
                                Stage::Log
                            };
                            git_run(next, files, message)
                        } else {
                            let what = if matches!(stage, Stage::Add) {
                                "git add"
                            } else {
                                "git commit"
                            };
                            Step::Failed(git_error(what, &o))
                        }
                    },
                },
            }
        },
    }
}

// ---- The steps of a commit ----

/// A commit is made in three steps: the files are added, they alone are committed with the message,
/// and the new commit is read. Each file stands behind `--`, so that none is taken for an option.
/// A step that fails ends it, but for the last: the commit was made by then.
pub proof fn law_commit_steps(
    files: Seq<Seq<char>>,
    message: Seq<char>,
    ok: GitOutput,
    failed: GitOutput,
    error: String,
)
    requires
        ok.success,
        !failed.success,
    ensures
        run_v(Stage::Add, files, message) == StepV::Run(
            Stage::Add,
            seq!["add"@, "--"@] + files,
        ),
        next_step_v(files, message, Stage::Add, Ok(ok)) == StepV::Run(
            Stage::Commit,
            seq!["commit"@, "-m"@, message, "--"@] + files,
        ),
        next_step_v(files, message, Stage::Commit, Ok(ok)) == StepV::Run(
            Stage::Log,
            seq!["log"@, "-1"@, "--pretty=%h %s"@],
        ),
        next_step_v(files, message, Stage::Log, Ok(failed)) == StepV::Committed(
            "commit created"@,
        ),
        next_step_v(files, message, Stage::Log, Err(error)) == StepV::Committed(
            "commit created"@,
        ),
        next_step_v(files, message, Stage::Commit, Err(error)) == StepV::Failed(
            "could not run git: "@ + error@,
        ),
        next_step_v(files, message, Stage::Add, Ok(failed)) is Failed,
        next_step_v(files, message, Stage::Commit, Ok(failed)) is Failed,
        next_step_v(files, message, Stage::Add, Err(error)) is Failed,
        next_step_v(files, message, Stage::Commit, Err(error)) is Failed,
        next_step_v(files, message, Stage::Log, Ok(ok)) == StepV::Committed(
            if text::trim_v(text::lossy_v(ok.stdout@)).len() > 0 {
                text::trim_v(text::lossy_v(ok.stdout@))
            } else {
                "commit created"@
            },
        ),
{
}

proof fn lemma_first_filled(ls: Seq<Seq<char>>)
    ensures
        first_filled_v(ls) matches Some(t) ==> t.len() > 0 && exists|k: int|
            0 <= k < ls.len() && t == text::trim_v(#[trigger] ls[k]) && forall|j: int|
                0 <= j < k ==> text::trim_v(#[trigger] ls[j]).len() == 0,
        first_filled_v(ls) is None ==> forall|j: int|
            0 <= j < ls.len() ==> text::trim_v(#[trigger] ls[j]).len() == 0,
    decreases ls.len(),
{
    if ls.len() > 0 {
        if text::trim_v(ls[0]).len() > 0 {
            assert(first_filled_v(ls) == Some(text::trim_v(ls[0])));
        } else {
            let rest = ls.drop_first();
            lemma_first_filled(rest);
            if let Some(t) = first_filled_v(rest) {
                let k = choose|k: int|
                    0 <= k < rest.len() && t == text::trim_v(#[trigger] rest[k]) && forall|j: int|
                        0 <= j < k ==> text::trim_v(#[trigger] rest[j]).len() == 0;
                assert(ls[k + 1] == rest[k]);
                assert forall|j: int| 0 <= j < k + 1 implies text::trim_v(
                    #[trigger] ls[j],
                ).len() == 0 by {
                    if j > 0 {
                        assert(rest[j - 1] == ls[j]);
                    }
                }
            } else {
                assert forall|j: int| 0 <= j < ls.len() implies text::trim_v(
                    #[trigger] ls[j],
                ).len() == 0 by {
                    if j > 0 {
                        assert(rest[j - 1] == ls[j]);
                    }
                }
            }
        }
    }
}

/// The first line that counts is the first that is not blank, without the whitespace around it.
pub proof fn law_first_line(s: Seq<char>)
    ensures
        first_line_v(s) matches Some(t) ==> t.len() > 0 && exists|k: int|
            0 <= k < text::lines_v(s).len() && t == text::trim_v(#[trigger] text::lines_v(s)[k])
                && forall|j: int|
                0 <= j < k ==> text::trim_v(#[trigger] text::lines_v(s)[j]).len() == 0,
        first_line_v(s) is None <==> forall|j: int|
            0 <= j < text::lines_v(s).len() ==> text::trim_v(
                #[trigger] text::lines_v(s)[j],
            ).len() == 0,
{
    lemma_first_filled(text::lines_v(s));
}

/// An error of git is told by the first line of what it wrote as its errors, else of its output,
/// else by its exit code.
pub proof fn law_git_errors(
    what: Seq<char>,
    stderr: Seq<u8>,
    stdout: Seq<u8>,
    code: Option<i32>,
)
    ensures
        ({
            let e = first_line_v(text::trim_v(text::lossy_v(stderr)));
            let o = first_line_v(text::trim_v(text::lossy_v(stdout)));
            &&& e matches Some(line) ==> git_error_v(what, stderr, stdout, code) == what + ": "@
                + line
            &&& e is None ==> (o matches Some(line) ==> git_error_v(what, stderr, stdout, code)
                == what + ": "@ + line)
            &&& e is None && o is None ==> git_error_v(what, stderr, stdout, code) == what
                + " failed (exit "@ + text::signed_v(
                match code {
                    Some(c) => c as int,
                    None => -1,
                },
            ) + ")"@
        }),
{
}

} // verus!
