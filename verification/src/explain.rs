//! Asking an assistant program to explain a diff, without stopping the viewer.
//!
//! The process and the threads that read it live outside; here is what is asked, and what the
//! overlay shows as its output comes in.
use vstd::prelude::*;
use vstd::string::*;

use crate::commit;
use crate::text;
use crate::util;
use crate::git::model::{DiffLine, FileDiff, FileDiffV, HunkV, LineV};
use crate::text::{
    byte_len, chars_of, decimal_usize, head_bytes, rfind_char, same, ascii_lower, slice_string,
    trim,
};
use crate::util::moved;

verus! {

broadcast use vstd::seq_lib::group_seq_properties;

/// How many bytes of diff are handed over at most: an explanation does not need every line, and
/// arguments have a size limit.
pub const MAX_DIFF_BYTES: usize = 61_440;

/// For how long a key is waited for before the screen is drawn again, in milliseconds.
pub const IDLE_POLL_MILLIS: u64 = 150;

/// The same while an answer is awaited: shorter, so that the spinner turns and the answer shows
/// promptly.
pub const RUNNING_POLL_MILLIS: u64 = 80;

/// For how long a script waits for an answer, in milliseconds.
pub const ANSWER_WAIT_MILLIS: u64 = 90_000;

/// The file name that the save prompt starts with.
pub open spec fn default_file_v() -> Seq<char> {
    "explanation.md"@
}

/// The model to ask.
#[derive(Clone, Copy, PartialEq, Eq, Debug, Structural)]
pub enum ExplainModel {
    Haiku,
    Sonnet,
    Opus,
}

impl ExplainModel {
    /// The model with a name, in any case of its letters.
    pub open spec fn from_name_v(name: Seq<char>) -> Option<ExplainModel> {
        let n = text::ascii_lower_v(name);
        if n == "haiku"@ {
            Some(ExplainModel::Haiku)
        } else if n == "sonnet"@ {
            Some(ExplainModel::Sonnet)
        } else if n == "opus"@ {
            Some(ExplainModel::Opus)
        } else {
            None
        }
    }

    /// The name of a model.
    pub open spec fn alias_v(self) -> Seq<char> {
        match self {
            ExplainModel::Haiku => "haiku"@,
            ExplainModel::Sonnet => "sonnet"@,
            ExplainModel::Opus => "opus"@,
        }
    }

    /// The model called `name`, in any case of its letters.
    pub fn from_name(name: &str) -> (r: Option<ExplainModel>)
        ensures
            r == ExplainModel::from_name_v(name@),
    {
        let n = ascii_lower(name);
        if same(n.as_str(), "haiku") {
            Some(ExplainModel::Haiku)
        } else if same(n.as_str(), "sonnet") {
            Some(ExplainModel::Sonnet)
        } else if same(n.as_str(), "opus") {
            Some(ExplainModel::Opus)
        } else {
            None
        }
    }

    /// The name by which the model is asked for.
    pub fn alias(self) -> (r: &'static str)
        ensures
            r@ == self.alias_v(),
    {
        match self {
            ExplainModel::Haiku => "haiku",
            ExplainModel::Sonnet => "sonnet",
            ExplainModel::Opus => "opus",
        }
    }
}

/// An open guidance prompt: what will be asked, and what the user adds to it.
#[derive(Debug)]
pub struct Guidance {
    pub instruction: String,
    pub diff_text: String,
    /// What is explained, for the title.
    pub target: String,
    pub input: String,
    pub model: Option<ExplainModel>,
}

/// A query that is under way.
#[derive(Debug)]
pub struct Running {
    /// What is explained, for the title.
    pub target: String,
    pub model: Option<ExplainModel>,
    /// The answer as far as it has come in.
    pub partial: String,
    /// The whole output, once it has ended.
    pub out: Option<String>,
    /// The whole error output, once it has ended.
    pub err: Option<String>,
}

/// An answer, or an error, that is shown.
#[derive(Debug)]
pub struct Answer {
    pub text: String,
    pub is_error: bool,
    /// The first wrapped line that is shown.
    pub scroll: usize,
    /// The file name being typed, while the answer is being saved.
    pub save: Option<String>,
    /// What came of the last save.
    pub notice: Option<String>,
}

/// The state of the explain overlay.
#[derive(Debug)]
pub enum Explain {
    Idle,
    Prompting(Guidance),
    Running(Running),
    Result(Answer),
}

/// What the reader threads hand over.
#[derive(Debug)]
pub enum Msg {
    /// A piece of the output.
    Chunk(String),
    /// The whole output, at its end.
    Out(String),
    /// The whole error output, at its end.
    Errors(String),
}

#[verifier::ext_equal]
pub ghost struct GuidanceV {
    pub instruction: Seq<char>,
    pub diff_text: Seq<char>,
    pub target: Seq<char>,
    pub input: Seq<char>,
    pub model: Option<ExplainModel>,
}

#[verifier::ext_equal]
pub ghost struct RunningV {
    pub target: Seq<char>,
    pub model: Option<ExplainModel>,
    pub partial: Seq<char>,
    pub out: Option<Seq<char>>,
    pub err: Option<Seq<char>>,
}

#[verifier::ext_equal]
pub ghost struct AnswerV {
    pub text: Seq<char>,
    pub is_error: bool,
    pub scroll: int,
    pub save: Option<Seq<char>>,
    pub notice: Option<Seq<char>>,
}

/// The mathematical value of an [`Explain`].
#[verifier::ext_equal]
pub ghost enum ExplainV {
    Idle,
    Prompting(GuidanceV),
    Running(RunningV),
    Result(AnswerV),
}

impl DeepView for Guidance {
    type V = GuidanceV;

    open spec fn deep_view(&self) -> GuidanceV {
        GuidanceV {
            instruction: self.instruction@,
            diff_text: self.diff_text@,
            target: self.target@,
            input: self.input@,
            model: self.model,
        }
    }
}

impl DeepView for Running {
    type V = RunningV;

    open spec fn deep_view(&self) -> RunningV {
        RunningV {
            target: self.target@,
            model: self.model,
            partial: self.partial@,
            out: self.out.deep_view(),
            err: self.err.deep_view(),
        }
    }
}

impl DeepView for Answer {
    type V = AnswerV;

    open spec fn deep_view(&self) -> AnswerV {
        AnswerV {
            text: self.text@,
            is_error: self.is_error,
            scroll: self.scroll as int,
            save: self.save.deep_view(),
            notice: self.notice.deep_view(),
        }
    }
}

impl DeepView for Explain {
    type V = ExplainV;

    open spec fn deep_view(&self) -> ExplainV {
        match self {
            Explain::Idle => ExplainV::Idle,
            Explain::Prompting(g) => ExplainV::Prompting(g.deep_view()),
            Explain::Running(r) => ExplainV::Running(r.deep_view()),
            Explain::Result(a) => ExplainV::Result(a.deep_view()),
        }
    }
}

// ---- What is asked ----

/// A diff that is too long, cut at the last line end within the limit (or at the limit).
pub open spec fn cut_diff_v(diff: Seq<char>) -> Seq<char> {
    let head = text::head_bytes_v(diff, MAX_DIFF_BYTES as int);
    let k = text::rfind_char_v(head, '\n');
    if k >= 0 {
        head.take(k)
    } else {
        head
    }
}

/// Where the last `c` of a text is.
proof fn lemma_last_char(s: Seq<char>, c: char)
    ensures
        -1 <= text::rfind_char_v(s, c) < s.len(),
        text::rfind_char_v(s, c) >= 0 ==> s[text::rfind_char_v(s, c)] == c,
        text::rfind_char_v(s, c) == -1 ==> !s.contains(c),
    decreases s.len(),
{
    if s.len() > 0 && s.last() != c {
        lemma_last_char(s.drop_last(), c);
        if text::rfind_char_v(s, c) == -1 && s.contains(c) {
            let i = choose|i: int| 0 <= i < s.len() && s[i] == c;
            assert(s.drop_last()[i] == c);
        }
    }
}

/// What is kept of a diff that is too long is a start of it within the limit, and ends where a line
/// ends, unless no line ends within the limit.
pub proof fn law_cut_within_limit(diff: Seq<char>)
    ensures
        cut_diff_v(diff).is_prefix_of(diff),
        text::byte_len_v(cut_diff_v(diff)) <= MAX_DIFF_BYTES,
        cut_diff_v(diff).len() < diff.len() ==> diff[cut_diff_v(diff).len() as int] == '\n'
            || !text::head_bytes_v(diff, MAX_DIFF_BYTES as int).contains('\n'),
{
    let head = text::head_bytes_v(diff, MAX_DIFF_BYTES as int);
    let k = text::rfind_char_v(head, '\n');
    text::lemma_head_fits(diff, MAX_DIFF_BYTES as int);
    lemma_last_char(head, '\n');
    if k >= 0 {
        text::lemma_start_fits(head, k);
        assert(head.take(k).is_prefix_of(diff));
        assert(diff[k] == head[k]);
    }
}

/// The prompt for an instruction and a diff.
pub open spec fn build_prompt_v(instruction: Seq<char>, diff: Seq<char>) -> Seq<char> {
    instruction + "\n\n```diff\n"@ + (if text::byte_len_v(diff) > MAX_DIFF_BYTES {
        cut_diff_v(diff) + "\n… (diff truncated)\n"@
    } else {
        diff
    }) + "```\n"@
}

/// The prompt that asks for an explanation: the instruction, then the diff as a code block, cut
/// near the size limit.
pub fn build_prompt(instruction: &str, diff_text: &str) -> (r: String)
    ensures
        r@ == build_prompt_v(instruction@, diff_text@),
{
    let mut prompt = instruction.to_owned();
    prompt.append("\n\n```diff\n");
    let ghost head = prompt@;
    if byte_len(diff_text) > MAX_DIFF_BYTES {
        let cs = chars_of(diff_text);
        let n: usize = head_bytes(&cs, MAX_DIFF_BYTES);
        let end: usize = match rfind_char(&cs, 0, n, '\n') {
            Some(k) => k,
            None => n,
        };
        assert(cs@.subrange(0, n as int) =~= cs@.take(n as int));
        let kept = slice_string(&cs, 0, end);
        assert(kept@ =~= cut_diff_v(diff_text@));
        prompt.append(kept.as_str());
        prompt.append("\n… (diff truncated)\n");
        assert(prompt@ =~= head + (cut_diff_v(diff_text@) + "\n… (diff truncated)\n"@));
    } else {
        prompt.append(diff_text);
    }
    prompt.append("```\n");
    prompt
}

/// An instruction with the guidance that the user typed, if any.
pub open spec fn guided_v(instruction: Seq<char>, input: Seq<char>) -> Seq<char> {
    if text::trim_v(input).len() == 0 {
        instruction
    } else {
        instruction + "\n\nAdditional guidance: "@ + text::trim_v(input)
    }
}

/// Who explains changes: the program that is run, and the name that it goes by.
#[derive(Debug)]
pub struct Assistant {
    pub program: String,
    pub name: String,
}

/// The mathematical value of an [`Assistant`].
#[verifier::ext_equal]
pub ghost struct AssistantV {
    pub program: Seq<char>,
    pub name: Seq<char>,
}

impl DeepView for Assistant {
    type V = AssistantV;

    open spec fn deep_view(&self) -> AssistantV {
        AssistantV { program: self.program@, name: self.name@ }
    }
}

/// The arguments with which the program is run.
pub open spec fn query_args_v(prompt: Seq<char>, model: Option<ExplainModel>) -> Seq<Seq<char>> {
    match model {
        None => seq!["-p"@, prompt],
        Some(m) => seq!["-p"@, prompt, "--model"@, m.alias_v()],
    }
}

/// What is asked when an open guidance prompt is submitted.
pub open spec fn submit_v(g: GuidanceV) -> Seq<Seq<char>> {
    query_args_v(build_prompt_v(guided_v(g.instruction, g.input), g.diff_text), g.model)
}

/// Appends a text to `args`.
fn push_arg(args: &mut Vec<String>, s: &str)
    ensures
        final(args).deep_view() == old(args).deep_view().push(s@),
{
    args.push(s.to_owned());
    assert(args.deep_view() =~= old(args).deep_view().push(s@));
}

impl Guidance {
    /// The arguments with which to run the program for what has been typed.
    pub fn query(&self) -> (r: Vec<String>)
        ensures
            r.deep_view() == submit_v(self.deep_view()),
    {
        let typed = trim(self.input.as_str());
        let mut instruction = self.instruction.clone();
        if !typed.as_str().is_empty() {
            instruction.append("\n\nAdditional guidance: ");
            instruction.append(typed.as_str());
        }
        let prompt = build_prompt(instruction.as_str(), self.diff_text.as_str());
        let mut args: Vec<String> = Vec::new();
        assert(args.deep_view() =~= Seq::empty());
        push_arg(&mut args, "-p");
        push_arg(&mut args, prompt.as_str());
        if let Some(m) = self.model {
            push_arg(&mut args, "--model");
            push_arg(&mut args, m.alias());
        }
        args
    }
}

// ---- The overlay ----

/// An answer shown from its start.
pub open spec fn answer_v(text: Seq<char>, is_error: bool) -> ExplainV {
    ExplainV::Result(AnswerV { text, is_error, scroll: 0, save: None, notice: None })
}

/// What is shown once the program has ended: its output where it succeeded with some; else its
/// errors; else its output after all; else a note that there was none.
pub open spec fn outcome_v(
    program: Seq<char>,
    success: bool,
    out: Seq<char>,
    err: Seq<char>,
) -> ExplainV {
    if success && text::trim_v(out).len() > 0 {
        answer_v(text::trim_v(out), false)
    } else if text::trim_v(err).len() > 0 {
        answer_v("`"@ + program + "` reported an error:\n\n"@ + text::trim_v(err), true)
    } else if text::trim_v(out).len() > 0 {
        answer_v(text::trim_v(out), false)
    } else {
        answer_v("`"@ + program + "` returned no output."@, true)
    }
}

impl ExplainV {
    /// Both streams of a running query have ended.
    pub open spec fn ended(self) -> bool {
        self matches ExplainV::Running(r) && r.out is Some && r.err is Some
    }

    /// The state after the program was polled, `success` being how it exited.
    pub open spec fn polled(self, program: Seq<char>, success: bool) -> ExplainV {
        match self {
            ExplainV::Running(r) => if r.out is Some && r.err is Some {
                outcome_v(program, success, r.out->0, r.err->0)
            } else {
                self
            },
            _ => self,
        }
    }

    pub open spec fn typed(self, c: char) -> ExplainV {
        match self {
            ExplainV::Prompting(g) => ExplainV::Prompting(
                GuidanceV { input: g.input.push(c), ..g },
            ),
            _ => self,
        }
    }

    pub open spec fn untyped(self) -> ExplainV {
        match self {
            ExplainV::Prompting(g) => ExplainV::Prompting(
                GuidanceV { input: commit::pop_v(g.input), ..g },
            ),
            _ => self,
        }
    }

    pub open spec fn scrolled(self, delta: int) -> ExplainV {
        match self {
            ExplainV::Result(a) => ExplainV::Result(
                AnswerV { scroll: util::clamp_v(a.scroll + delta, 0, usize::MAX as int), ..a },
            ),
            _ => self,
        }
    }

    /// The state with another file name in the save prompt, `None` closing it.
    pub open spec fn saving(self, save: Option<Seq<char>>) -> ExplainV {
        match self {
            ExplainV::Result(a) => ExplainV::Result(AnswerV { save, ..a }),
            _ => self,
        }
    }

    /// The file name in the save prompt, while it is open.
    pub open spec fn save_name(self) -> Option<Seq<char>> {
        match self {
            ExplainV::Result(a) => a.save,
            _ => None,
        }
    }

    /// The state after a save ended with a notice.
    pub open spec fn noticed(self, notice: Seq<char>) -> ExplainV {
        match self {
            ExplainV::Result(a) => ExplainV::Result(
                AnswerV { save: None, notice: Some(notice), ..a },
            ),
            _ => self,
        }
    }

    /// The state after a reader thread's message.
    pub open spec fn received(self, msg: Msg) -> ExplainV {
        match self {
            ExplainV::Running(r) => ExplainV::Running(
                match msg {
                    Msg::Chunk(s) => RunningV { partial: r.partial + s@, ..r },
                    Msg::Out(s) => RunningV { out: Some(s@), ..r },
                    Msg::Errors(s) => RunningV { err: Some(s@), ..r },
                },
            ),
            _ => self,
        }
    }
}

/// The state once the program was started, or could not be.
pub open spec fn start_v(
    assistant: AssistantV,
    target: Seq<char>,
    model: Option<ExplainModel>,
    spawned: Result<(), String>,
) -> ExplainV {
    match spawned {
        Ok(_) => ExplainV::Running(
            RunningV { target, model, partial: Seq::empty(), out: None, err: None },
        ),
        Err(e) => answer_v(
            "Couldn't run `"@ + assistant.program + "`: "@ + e@ + "\n\nThe "@ + assistant.name
                + " Code CLI must be installed and on your PATH for this to work."@,
            true,
        ),
    }
}

impl Explain {
    /// Opens the guidance prompt.
    pub fn prompt(
        instruction: String,
        diff_text: String,
        target: String,
        model: Option<ExplainModel>,
    ) -> (r: Explain)
        ensures
            r.deep_view() == ExplainV::Prompting(
                (GuidanceV {
                    instruction: instruction@,
                    diff_text: diff_text@,
                    target: target@,
                    input: Seq::empty(),
                    model,
                }),
            ),
    {
        Explain::Prompting(
            Guidance { instruction, diff_text, target, input: String::new(), model },
        )
    }

    /// The state once the program was started, or could not be.
    pub fn start(
        assistant: &Assistant,
        target: String,
        model: Option<ExplainModel>,
        spawned: Result<(), String>,
    ) -> (r: Explain)
        ensures
            r.deep_view() == start_v(assistant.deep_view(), target@, model, spawned),
    {
        match spawned {
            Ok(_) => Explain::Running(
                Running { target, model, partial: String::new(), out: None, err: None },
            ),
            Err(e) => {
                let mut text = "Couldn't run `".to_owned();
                text.append(assistant.program.as_str());
                text.append("`: ");
                text.append(e.as_str());
                text.append("\n\nThe ");
                text.append(assistant.name.as_str());
                text.append(" Code CLI must be installed and on your PATH for this to work.");
                Explain::answer(text, true)
            },
        }
    }

    /// An answer shown from its start.
    fn answer(text: String, is_error: bool) -> (r: Explain)
        ensures
            r.deep_view() == answer_v(text@, is_error),
    {
        Explain::Result(Answer { text, is_error, scroll: 0, save: None, notice: None })
    }

    pub fn is_idle(&self) -> (r: bool)
        ensures
            r == (self.deep_view() is Idle),
    {
        matches!(self, Explain::Idle)
    }

    pub fn is_prompting(&self) -> (r: bool)
        ensures
            r == (self.deep_view() is Prompting),
    {
        matches!(self, Explain::Prompting(_))
    }

    pub fn is_running(&self) -> (r: bool)
        ensures
            r == (self.deep_view() is Running),
    {
        matches!(self, Explain::Running(_))
    }

    /// For how long a key is waited for before the screen is drawn again, in milliseconds.
    pub fn poll_millis(&self) -> (r: u64)
        ensures
            r == if self.deep_view() is Running {
                RUNNING_POLL_MILLIS
            } else {
                IDLE_POLL_MILLIS
            },
    {
        if self.is_running() {
            RUNNING_POLL_MILLIS
        } else {
            IDLE_POLL_MILLIS
        }
    }

    /// Whether a script still waits for an answer after so many milliseconds.
    pub fn is_awaited(&self, elapsed: u64) -> (r: bool)
        ensures
            r == (self.deep_view() is Running && elapsed < ANSWER_WAIT_MILLIS),
    {
        self.is_running() && elapsed < ANSWER_WAIT_MILLIS
    }

    /// Whether the save prompt is open.
    pub fn is_saving(&self) -> (r: bool)
        ensures
            r == (self.deep_view().save_name() is Some),
    {
        match self {
            Explain::Result(a) => a.save.is_some(),
            _ => false,
        }
    }

    /// Whether the overlay is shown.
    pub fn is_active(&self) -> (r: bool)
        ensures
            r == !(self.deep_view() is Idle),
    {
        !self.is_idle()
    }

    /// Whether both streams of the running query have ended, so that its exit can be waited for.
    pub fn is_ended(&self) -> (r: bool)
        ensures
            r == self.deep_view().ended(),
    {
        match self {
            Explain::Running(r) => r.out.is_some() && r.err.is_some(),
            _ => false,
        }
    }

    /// Takes a message from a reader thread.
    pub fn receive(&mut self, msg: Msg)
        ensures
            final(self).deep_view() == old(self).deep_view().received(msg),
    {
        if let Explain::Running(r) = self {
            match msg {
                Msg::Chunk(s) => {
                    r.partial.append(s.as_str());
                },
                Msg::Out(s) => {
                    r.out = Some(s);
                },
                Msg::Errors(s) => {
                    r.err = Some(s);
                },
            }
        }
    }

    /// Shows the outcome once both streams of a running query have ended; `success` says whether
    /// `program` exited well.
    pub fn poll(&mut self, program: &str, success: bool)
        ensures
            final(self).deep_view() == old(self).deep_view().polled(program@, success),
    {
        let next: Option<Explain> = match self {
            Explain::Running(r) => match (&r.out, &r.err) {
                (Some(out), Some(err)) => Some(Explain::outcome(program, success, out, err)),
                _ => None,
            },
            _ => None,
        };
        if let Some(e) = next {
            *self = e;
        }
    }

    /// What is shown once the program has ended.
    fn outcome(program: &str, success: bool, out: &String, err: &String) -> (r: Explain)
        ensures
            r.deep_view() == outcome_v(program@, success, out@, err@),
    {
        let o = trim(out.as_str());
        let e = trim(err.as_str());
        if success && !o.as_str().is_empty() {
            Explain::answer(o, false)
        } else if !e.as_str().is_empty() {
            let mut text = "`".to_owned();
            text.append(program);
            text.append("` reported an error:\n\n");
            text.append(e.as_str());
            Explain::answer(text, true)
        } else if !o.as_str().is_empty() {
            Explain::answer(o, false)
        } else {
            let mut text = "`".to_owned();
            text.append(program);
            text.append("` returned no output.");
            Explain::answer(text, true)
        }
    }

    /// Closes the overlay. A running program is to be killed.
    pub fn cancel(&mut self)
        ensures
            final(self).deep_view() == ExplainV::Idle,
    {
        *self = Explain::Idle;
    }

    pub fn dismiss(&mut self)
        ensures
            final(self).deep_view() == ExplainV::Idle,
    {
        *self = Explain::Idle;
    }

    pub fn scroll_by(&mut self, delta: isize)
        ensures
            final(self).deep_view() == old(self).deep_view().scrolled(delta as int),
    {
        if let Explain::Result(a) = self {
            a.scroll = moved(a.scroll, delta, usize::MAX);
        }
    }

    pub fn input_push(&mut self, c: char)
        ensures
            final(self).deep_view() == old(self).deep_view().typed(c),
    {
        if let Explain::Prompting(g) = self {
            g.input.push(c);
        }
    }

    pub fn input_backspace(&mut self)
        ensures
            final(self).deep_view() == old(self).deep_view().untyped(),
    {
        if let Explain::Prompting(g) = self {
            let _ = g.input.pop();
        }
    }

    /// Opens the save prompt, with a file name to start from.
    pub fn start_save(&mut self)
        ensures
            final(self).deep_view() == old(self).deep_view().saving(Some(default_file_v())),
    {
        if let Explain::Result(a) = self {
            a.save = Some("explanation.md".to_owned());
        }
    }

    pub fn cancel_save(&mut self)
        ensures
            final(self).deep_view() == old(self).deep_view().saving(None),
    {
        if let Explain::Result(a) = self {
            a.save = None;
        }
    }

    pub fn save_input_push(&mut self, c: char)
        ensures
            final(self).deep_view() == (match old(self).deep_view().save_name() {
                Some(name) => old(self).deep_view().saving(Some(name.push(c))),
                None => old(self).deep_view(),
            }),
    {
        if let Explain::Result(a) = self {
            if let Some(name) = &mut a.save {
                name.push(c);
            }
        }
    }

    pub fn save_input_backspace(&mut self)
        ensures
            final(self).deep_view() == (match old(self).deep_view().save_name() {
                Some(name) => old(self).deep_view().saving(Some(commit::pop_v(name))),
                None => old(self).deep_view(),
            }),
    {
        if let Explain::Result(a) = self {
            if let Some(name) = &mut a.save {
                let _ = name.pop();
            }
        }
    }

    /// What to write where, when the save prompt is confirmed.
    pub fn save_request(&self) -> (r: Option<(String, String)>)
        ensures
            match r {
                Some((name, text)) => self.deep_view() matches ExplainV::Result(a) && a.save
                    == Some(name@) && a.text == text@,
                None => self.deep_view().save_name() is None,
            },
    {
        match self {
            Explain::Result(a) => match &a.save {
                Some(name) => Some((name.clone(), a.text.clone())),
                None => None,
            },
            _ => None,
        }
    }

    /// Closes the save prompt with what came of it: the path that was written, or an error.
    pub fn confirm_save(&mut self, written: Result<String, String>)
        ensures
            final(self).deep_view() == old(self).deep_view().noticed(
                match written {
                    Ok(path) => "saved to "@ + path@,
                    Err(e) => "save failed: "@ + e@,
                },
            ),
    {
        let notice: String = match written {
            Ok(path) => {
                let mut s = "saved to ".to_owned();
                s.append(path.as_str());
                s
            },
            Err(e) => {
                let mut s = "save failed: ".to_owned();
                s.append(e.as_str());
                s
            },
        };
        if let Explain::Result(a) = self {
            a.save = None;
            a.notice = Some(notice);
        }
    }
}

// ---- The diff as text ----

/// The character that marks a line in a unified diff.
pub open spec fn prefix_v(line: LineV) -> char {
    match line {
        LineV::Context { .. } => ' ',
        LineV::Removed { .. } => '-',
        LineV::Added { .. } => '+',
    }
}

/// Lines in a unified diff, from `i` to `end`.
pub open spec fn render_lines_v(lines: Seq<LineV>, i: int, end: int) -> Seq<char>
    decreases end - i,
{
    if i >= end {
        Seq::empty()
    } else {
        (render_lines_v(lines, i, end - 1).push(prefix_v(lines[end - 1]))
            + lines[end - 1].content()).push('\n')
    }
}

/// The header line of a hunk.
pub open spec fn hunk_header_v(h: HunkV) -> Seq<char> {
    "@@ -"@ + text::decimal_v(h.old_start as nat) + ","@ + text::decimal_v(h.old_lines as nat) + " +"@
        + text::decimal_v(h.new_start as nat) + ","@ + text::decimal_v(h.new_lines as nat) + " @@\n"@
}

/// The first `k` hunks in a unified diff.
pub open spec fn render_hunks_v(doc: FileDiffV, k: nat) -> Seq<char>
    decreases k,
{
    if k == 0 {
        Seq::empty()
    } else {
        let h = doc.hunks[k - 1];
        render_hunks_v(doc, (k - 1) as nat) + hunk_header_v(h) + render_lines_v(
            doc.lines,
            h.start,
            h.end,
        )
    }
}

/// A file's diff as unified text.
pub open spec fn render_unified_v(path: Seq<char>, doc: FileDiffV) -> Seq<char> {
    "--- a/"@ + path + "\n+++ b/"@ + path + "\n"@ + render_hunks_v(doc, doc.hunks.len())
}

/// A file's diff as unified text, in the manner of `git diff`.
pub fn render_unified(path: &str, fd: &FileDiff) -> (r: String)
    requires
        crate::app::pairing::hunks_within(fd.deep_view().lines, fd.deep_view().hunks),
    ensures
        r@ == render_unified_v(path@, fd.deep_view()),
{
    let ghost doc = fd.deep_view();
    let mut s = "--- a/".to_owned();
    s.append(path);
    s.append("\n+++ b/");
    s.append(path);
    s.append("\n");
    let ghost head = s@;
    let mut k: usize = 0;
    assert(s@ =~= head + render_hunks_v(doc, 0));
    while k < fd.hunks.len()
        invariant
            k <= fd.hunks@.len(),
            doc == fd.deep_view(),
            crate::app::pairing::hunks_within(doc.lines, doc.hunks),
            s@ == head + render_hunks_v(doc, k as nat),
        decreases fd.hunks@.len() - k,
    {
        let ghost before = render_hunks_v(doc, k as nat);
        let h = &fd.hunks[k];
        let ghost hv = doc.hunks[k as int];
        assert(hv == h.deep_view());
        let n1 = decimal_usize(h.old_start);
        let n2 = decimal_usize(h.old_lines);
        let n3 = decimal_usize(h.new_start);
        let n4 = decimal_usize(h.new_lines);
        let mut header = "@@ -".to_owned();
        header.append(n1.as_str());
        header.append(",");
        header.append(n2.as_str());
        header.append(" +");
        header.append(n3.as_str());
        header.append(",");
        header.append(n4.as_str());
        header.append(" @@\n");
        assert(header@ == hunk_header_v(hv));
        s.append(header.as_str());
        let start: usize = h.line_range.start;
        let end: usize = h.line_range.end;
        let ghost top = s@;
        let mut i: usize = start;
        assert(s@ =~= top + render_lines_v(doc.lines, start as int, start as int));
        while i < end
            invariant
                start <= i <= end <= fd.lines@.len(),
                doc == fd.deep_view(),
                s@ == top + render_lines_v(doc.lines, start as int, i as int),
            decreases end - i,
        {
            let line = &fd.lines[i];
            assert(doc.lines[i as int] == line.deep_view());
            let prefix: char = match line {
                DiffLine::Context { .. } => ' ',
                DiffLine::Removed { .. } => '-',
                DiffLine::Added { .. } => '+',
            };
            s.push(prefix);
            s.append(line.content());
            s.push('\n');
            assert(s@ =~= top + render_lines_v(doc.lines, start as int, i + 1));
            i = i + 1;
        }
        assert(s@ =~= head + render_hunks_v(doc, (k + 1) as nat));
        k = k + 1;
    }
    s
}

// ---- What is asked, and what comes back ----

/// A query hands over one prompt, and the model's name where one is chosen. The prompt starts with
/// the instruction, goes on with what was typed where that is not blank, and ends with the diff in
/// a fence: all of it up to 61440 bytes, else as many of its first lines as fit, and a note.
pub proof fn law_submitted(g: GuidanceV)
    ensures
        ({
            let args = submit_v(g);
            let typed = text::trim_v(g.input);
            let asked = if typed.len() == 0 {
                g.instruction
            } else {
                g.instruction + "\n\nAdditional guidance: "@ + typed
            };
            &&& args.len() == (if g.model is Some {
                4nat
            } else {
                2
            })
            &&& args[0] == "-p"@
            &&& g.model matches Some(m) ==> args[2] == "--model"@ && args[3] == m.alias_v()
            &&& text::byte_len_v(g.diff_text) <= 61440 ==> args[1] == asked + "\n\n```diff\n"@
                + g.diff_text + "```\n"@
            &&& text::byte_len_v(g.diff_text) > 61440 ==> args[1] == asked + "\n\n```diff\n"@ + (
            cut_diff_v(g.diff_text) + "\n… (diff truncated)\n"@) + "```\n"@ && text::byte_len_v(
                cut_diff_v(g.diff_text),
            ) <= 61440 && cut_diff_v(g.diff_text).is_prefix_of(g.diff_text)
        }),
{
    law_cut_within_limit(g.diff_text);
}

/// A model is known by its name, however that is capitalised.
pub proof fn law_model_names(m: ExplainModel, name: Seq<char>)
    ensures
        ExplainModel::from_name_v(m.alias_v()) == Some(m),
        text::ascii_lower_v(name) == m.alias_v() <==> ExplainModel::from_name_v(name) == Some(m),
        m.alias_v() == (match m {
            ExplainModel::Haiku => "haiku"@,
            ExplainModel::Sonnet => "sonnet"@,
            ExplainModel::Opus => "opus"@,
        }),
{
    reveal_strlit("haiku");
    reveal_strlit("sonnet");
    reveal_strlit("opus");
    assert("haiku"@[0] == 'h' && "sonnet"@[0] == 's' && "opus"@[0] == 'o');
    assert(text::ascii_lower_v("haiku"@) =~= "haiku"@);
    assert(text::ascii_lower_v("sonnet"@) =~= "sonnet"@);
    assert(text::ascii_lower_v("opus"@) =~= "opus"@);
}

/// What a query that ended comes to. Output of a query that succeeded is the answer, and so is that
/// of one that failed without saying why; else what it wrote as its errors is shown as an error,
/// and where it wrote nothing at all, that is one too.
pub proof fn law_outcome(program: Seq<char>, success: bool, out: Seq<char>, err: Seq<char>)
    ensures
        outcome_v(program, success, out, err) matches ExplainV::Result(a) && {
            let output = text::trim_v(out);
            let errors = text::trim_v(err);
            &&& a.scroll == 0 && a.save is None && a.notice is None
            &&& a.is_error <==> output.len() == 0 || (!success && errors.len() > 0)
            &&& !a.is_error ==> a.text == output
            &&& a.is_error && errors.len() > 0 ==> a.text == "`"@ + program
                + "` reported an error:\n\n"@ + errors
            &&& a.is_error && errors.len() == 0 ==> a.text == "`"@ + program
                + "` returned no output."@
        },
{
}

/// A running query takes in what it wrote, piece after piece, and ends once both its outputs have;
/// until then polling changes nothing.
pub proof fn law_running(r: RunningV, a: String, b: String, program: Seq<char>, success: bool)
    ensures
        ExplainV::Running(r).received(Msg::Chunk(a)).received(Msg::Chunk(b)) == ExplainV::Running(
            RunningV { partial: r.partial + a@ + b@, ..r },
        ),
        ExplainV::Running(r).received(Msg::Out(a)) == ExplainV::Running(
            RunningV { out: Some(a@), ..r },
        ),
        ExplainV::Running(r).received(Msg::Errors(b)) == ExplainV::Running(
            RunningV { err: Some(b@), ..r },
        ),
        r.out is None || r.err is None ==> ExplainV::Running(r).polled(program, success)
            == ExplainV::Running(r),
        ExplainV::Running(r).received(Msg::Out(a)).received(Msg::Errors(b)).polled(program, success)
            == outcome_v(program, success, a@, b@),
        ExplainV::Running(r).ended() <==> r.out is Some && r.err is Some,
{
}

/// Typing and taking back leave the prompt as it was; an answer scrolls by rows, and not above its
/// start.
pub proof fn law_explain_keys(g: GuidanceV, a: AnswerV, c: char)
    requires
        0 <= a.scroll < usize::MAX,
    ensures
        ExplainV::Prompting(g).typed(c) == ExplainV::Prompting(
            GuidanceV { input: g.input.push(c), ..g },
        ),
        ExplainV::Prompting(g).typed(c).untyped() == ExplainV::Prompting(g),
        ExplainV::Result(a).scrolled(1) == ExplainV::Result(AnswerV { scroll: a.scroll + 1, ..a }),
        ExplainV::Result(a).scrolled(1).scrolled(-1) == ExplainV::Result(a),
        a.scroll == 0 ==> ExplainV::Result(a).scrolled(-1) == ExplainV::Result(a),
{
    assert(g.input.push(c).drop_last() =~= g.input);
}

/// A rendered diff names the file on both sides, and its lines tell by their first character
/// whether they are kept, removed or added; each hunk is headed by where it stands.
pub proof fn law_rendered(path: Seq<char>, doc: FileDiffV, line: LineV, h: HunkV)
    ensures
        ("--- a/"@ + path + "\n+++ b/"@ + path + "\n"@).is_prefix_of(render_unified_v(path, doc)),
        prefix_v(line) == ' ' <==> line is Context,
        prefix_v(line) == '-' <==> line is Removed,
        prefix_v(line) == '+' <==> line is Added,
        hunk_header_v(h) == "@@ -"@ + text::decimal_v(h.old_start as nat) + ","@ + text::decimal_v(
            h.old_lines as nat,
        ) + " +"@ + text::decimal_v(h.new_start as nat) + ","@ + text::decimal_v(
            h.new_lines as nat,
        ) + " @@\n"@,
{
    let head = "--- a/"@ + path + "\n+++ b/"@ + path + "\n"@;
    let all = render_unified_v(path, doc);
    assert(all.subrange(0, head.len() as int) =~= head);
}

} // verus!
