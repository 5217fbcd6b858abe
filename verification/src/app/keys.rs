//! Keys: how a script of keys reads, and what each key does on each screen.
use vstd::prelude::*;
use vstd::string::*;

use crate::app::actions;
use crate::commit;
use crate::explain;
use crate::text;
use crate::app::{App, AppV, Screen};
use crate::app::actions::{Action, ActionV, Effects, OutV};
use crate::app::listing::OverviewV;
use crate::app::rows::DiffV;
use crate::commit::{Commit, CommitV};
use crate::explain::{Explain, ExplainV, GuidanceV};
use crate::text::{byte_len, chars_of, same, split, starts_with, trim};

verus! {

/// What a key is.
#[derive(Clone, Copy, PartialEq, Eq, Debug, Structural)]
pub enum KeyCode {
    Char(char),
    Enter,
    Esc,
    Backspace,
    Tab,
    Up,
    Down,
    /// Any other key.
    Other,
}

/// A key event.
#[derive(Clone, Copy, PartialEq, Eq, Debug, Structural)]
pub struct Key {
    pub code: KeyCode,
    /// Is the control key, and no other modifier, held?
    pub ctrl: bool,
    /// Is the key let go?
    pub release: bool,
}

impl Key {
    /// A key pressed alone.
    pub open spec fn plain_v(code: KeyCode) -> Key {
        Key { code, ctrl: false, release: false }
    }

    /// A key pressed alone.
    pub fn plain(code: KeyCode) -> (r: Key)
        ensures
            r == Key::plain_v(code),
    {
        Key { code, ctrl: false, release: false }
    }
}

// ---- Scripts of keys ----

/// The key that a word of a script stands for: a name of a key, `C-` and a character for that
/// character with control, else the first character.
pub open spec fn key_v(tok: Seq<char>) -> Key {
    if tok == "CR"@ {
        Key::plain_v(KeyCode::Enter)
    } else if tok == "ESC"@ {
        Key::plain_v(KeyCode::Esc)
    } else if tok == "SP"@ {
        Key::plain_v(KeyCode::Char(' '))
    } else if tok == "BS"@ {
        Key::plain_v(KeyCode::Backspace)
    } else if tok == "TAB"@ {
        Key::plain_v(KeyCode::Tab)
    } else if text::byte_len_v(tok) == 3 && "C-"@.is_prefix_of(tok) {
        Key { code: KeyCode::Char(tok[2]), ctrl: true, release: false }
    } else {
        Key::plain_v(KeyCode::Char(tok[0]))
    }
}

/// The keys of the first `k` words; empty words do not count.
pub open spec fn keys_v(words: Seq<Seq<char>>, k: nat) -> Seq<Key>
    decreases k,
{
    if k == 0 {
        Seq::empty()
    } else {
        let before = keys_v(words, (k - 1) as nat);
        let tok = text::trim_v(words[k - 1]);
        if tok.len() == 0 {
            before
        } else {
            before.push(key_v(tok))
        }
    }
}

/// The key that a word of a script stands for.
fn key_of(tok: &str) -> (r: Key)
    requires
        tok@.len() > 0,
    ensures
        r == key_v(tok@),
{
    if same(tok, "CR") {
        return Key::plain(KeyCode::Enter);
    }
    if same(tok, "ESC") {
        return Key::plain(KeyCode::Esc);
    }
    if same(tok, "SP") {
        return Key::plain(KeyCode::Char(' '));
    }
    if same(tok, "BS") {
        return Key::plain(KeyCode::Backspace);
    }
    if same(tok, "TAB") {
        return Key::plain(KeyCode::Tab);
    }
    let cs = chars_of(tok);
    if byte_len(tok) == 3 && starts_with(tok, "C-") {
        proof {
            lemma_third(tok@);
        }
        return Key { code: KeyCode::Char(cs[2]), ctrl: true, release: false };
    }
    Key::plain(KeyCode::Char(cs[0]))
}

/// A word of three bytes that starts with two characters of one byte has a third.
proof fn lemma_third(tok: Seq<char>)
    requires
        text::byte_len_v(tok) == 3,
        "C-"@.is_prefix_of(tok),
    ensures
        tok.len() > 2,
{
    reveal_strlit("C-");
    if tok.len() <= 2 {
        assert(tok =~= "C-"@);
        assert(text::byte_len_v(tok) == 2) by {
            crate::text::lemma_byte_len_push(seq!['C'], '-');
            crate::text::lemma_byte_len_push(Seq::empty(), 'C');
            assert(Seq::<char>::empty().push('C') =~= seq!['C']);
            assert(seq!['C'].push('-') =~= "C-"@);
        }
    }
}

impl App {
    /// The keys of a script, words between commas, to be handed to [`App::on_key`] one by one.
    pub fn feed_keys(spec: &str) -> (r: Vec<Key>)
        ensures
            r@ == keys_v(text::split_v(spec@, ','), text::split_v(spec@, ',').len()),
    {
        let words = split(spec, ',');
        let ghost ws = text::split_v(spec@, ',');
        let mut out: Vec<Key> = Vec::new();
        let mut i: usize = 0;
        while i < words.len()
            invariant
                i <= words@.len(),
                ws == words.deep_view(),
                out@ == keys_v(ws, i as nat),
            decreases words@.len() - i,
        {
            assert(ws[i as int] == words@[i as int]@);
            let tok = trim(words[i].as_str());
            if !tok.as_str().is_empty() {
                out.push(key_of(tok.as_str()));
            }
            i = i + 1;
        }
        out
    }
}

// ---- Overlays ----

impl AppV {
    /// A key while guidance for an explanation is typed.
    #[verifier::opaque]
    pub open spec fn guidance_key(self, g: GuidanceV, key: Key) -> OutV {
        match key.code {
            KeyCode::Esc => (AppV { explain: ExplainV::Idle, ..self }).quiet(),
            KeyCode::Enter => self.asking(ActionV::RunQuery(explain::submit_v(g))),
            KeyCode::Backspace => (AppV { explain: self.explain.untyped(), ..self }).quiet(),
            KeyCode::Char(c) => (AppV { explain: self.explain.typed(c), ..self }).quiet(),
            _ => self.quiet(),
        }
    }

    /// A key while an explanation is awaited.
    #[verifier::opaque]
    pub open spec fn running_key(self, key: Key) -> OutV {
        match key.code {
            KeyCode::Esc => (AppV { explain: ExplainV::Idle, ..self }).said(
                "explanation canceled"@,
            ).asking(ActionV::StopQuery),
            _ => self.quiet(),
        }
    }

    /// A key while the name of a file for an explanation is typed.
    #[verifier::opaque]
    pub open spec fn save_key(self, name: Seq<char>, text: Seq<char>, key: Key) -> OutV {
        match key.code {
            KeyCode::Esc => (AppV { explain: self.explain.saving(None), ..self }).quiet(),
            KeyCode::Enter => self.asking(ActionV::SaveAnswer { name, text }),
            KeyCode::Backspace => (AppV {
                explain: self.explain.saving(Some(commit::pop_v(name))),
                ..self
            }).quiet(),
            KeyCode::Char(c) => (AppV {
                explain: self.explain.saving(Some(name.push(c))),
                ..self
            }).quiet(),
            _ => self.quiet(),
        }
    }

    /// A key while an explanation is shown.
    #[verifier::opaque]
    pub open spec fn answer_key(self, key: Key) -> OutV {
        match key.code {
            KeyCode::Char('j') | KeyCode::Down => (AppV {
                explain: self.explain.scrolled(1),
                ..self
            }).quiet(),
            KeyCode::Char('k') | KeyCode::Up => (AppV {
                explain: self.explain.scrolled(-1),
                ..self
            }).quiet(),
            KeyCode::Char('s') => (AppV {
                explain: self.explain.saving(Some(explain::default_file_v())),
                ..self
            }).quiet(),
            KeyCode::Esc | KeyCode::Enter | KeyCode::Char('q') | KeyCode::Char('e') => (AppV {
                explain: ExplainV::Idle,
                ..self
            }).quiet(),
            _ => self.quiet(),
        }
    }

    /// A key while an explanation is prompted for, awaited or shown.
    #[verifier::opaque]
    pub open spec fn explain_key(self, key: Key) -> OutV {
        match self.explain {
            ExplainV::Idle => self.quiet(),
            ExplainV::Prompting(g) => self.guidance_key(g, key),
            ExplainV::Running(_) => self.running_key(key),
            ExplainV::Result(a) => match a.save {
                Some(name) => self.save_key(name, a.text, key),
                None => self.answer_key(key),
            },
        }
    }

    /// A key while a commit message is prompted for.
    #[verifier::opaque]
    pub open spec fn commit_key(self, key: Key) -> OutV {
        match self.commit {
            CommitV::Idle => self.quiet(),
            CommitV::Prompting(_) => match key.code {
                KeyCode::Esc => (AppV { commit: CommitV::Idle, ..self }).quiet(),
                KeyCode::Enter => self.committing(),
                KeyCode::Backspace => (AppV { commit: self.commit.untyped(), ..self }).quiet(),
                KeyCode::Char(c) => (AppV { commit: self.commit.typed(c), ..self }).quiet(),
                _ => self.quiet(),
            },
        }
    }

    /// A key while the filter is typed.
    #[verifier::opaque]
    pub open spec fn filter_key(self, key: Key) -> AppV {
        match key.code {
            KeyCode::Esc => (AppV {
                ov: OverviewV { filtering: false, filter: Seq::empty(), ..self.ov },
                ..self
            }).reordered(),
            KeyCode::Enter => AppV { ov: OverviewV { filtering: false, ..self.ov }, ..self },
            KeyCode::Backspace => (AppV {
                ov: OverviewV { filter: commit::pop_v(self.ov.filter), ..self.ov },
                ..self
            }).reordered(),
            KeyCode::Char(c) => (AppV {
                ov: OverviewV { filter: self.ov.filter.push(c), ..self.ov },
                ..self
            }).reordered(),
            _ => self,
        }
    }

    /// A key while a search is typed.
    #[verifier::opaque]
    pub open spec fn search_key(self, key: Key) -> AppV {
        match key.code {
            KeyCode::Esc => {
                let s = AppV { diff_searching: false, ..self };
                match self.diff {
                    Some(d) => s.with_diff(d.unsearched()),
                    None => s,
                }
            },
            KeyCode::Enter => AppV { diff_searching: false, ..self },
            KeyCode::Backspace => match self.diff {
                Some(d) => self.with_diff(
                    (DiffV { search: commit::pop_v(d.search), ..d }).rematched(true),
                ),
                None => self,
            },
            KeyCode::Char(c) => match self.diff {
                Some(d) => self.with_diff(
                    (DiffV { search: d.search.push(c), ..d }).rematched(true),
                ),
                None => self,
            },
            _ => self,
        }
    }
}

impl App {
    /// A key while an explanation is prompted for, awaited or shown. In the prompts, typing edits;
    /// while the answer is awaited, only canceling works; then the answer can be scrolled, saved and
    /// dismissed.
    pub fn on_explain_key(&mut self, key: Key) -> (r: Effects)
        requires
            old(self).wf(),
        ensures
            final(self).wf(),
            actions::out_v(final(self)@, r) == old(self)@.explain_key(key),
            answerable(actions::out_v(final(self)@, r)),
    {
        proof {
            reveal(AppV::explain_key);
        }
        match &self.explain {
            Explain::Idle => Effects::quiet(),
            Explain::Prompting(_) => self.on_guidance_key(key),
            Explain::Running(_) => self.on_running_key(key),
            Explain::Result(a) => {
                if a.save.is_some() {
                    self.on_save_key(key)
                } else {
                    self.on_answer_key(key)
                }
            },
        }
    }

    /// A key while guidance is typed.
    fn on_guidance_key(&mut self, key: Key) -> (r: Effects)
        requires
            old(self).wf(),
            old(self)@.explain is Prompting,
        ensures
            final(self).wf(),
            actions::out_v(final(self)@, r) == old(self)@.guidance_key(
                old(self)@.explain->Prompting_0,
                key,
            ),
            answerable(actions::out_v(final(self)@, r)),
    {
        proof {
            reveal(AppV::guidance_key);
        }
        match key.code {
            KeyCode::Enter => match &self.explain {
                Explain::Prompting(g) => Effects::of(Action::RunQuery(g.query())),
                _ => Effects::quiet(),
            },
            KeyCode::Esc => {
                self.explain.cancel();
                Effects::quiet()
            },
            KeyCode::Backspace => {
                self.explain.input_backspace();
                Effects::quiet()
            },
            KeyCode::Char(c) => {
                self.explain.input_push(c);
                Effects::quiet()
            },
            _ => Effects::quiet(),
        }
    }

    /// A key while an answer is awaited.
    fn on_running_key(&mut self, key: Key) -> (r: Effects)
        requires
            old(self).wf(),
        ensures
            final(self).wf(),
            actions::out_v(final(self)@, r) == old(self)@.running_key(key),
            answerable(actions::out_v(final(self)@, r)),
    {
        proof {
            reveal(AppV::running_key);
        }
        match key.code {
            KeyCode::Esc => {
                self.explain.cancel();
                self.flash = Some("explanation canceled".to_owned());
                Effects::of(Action::StopQuery)
            },
            _ => Effects::quiet(),
        }
    }

    /// A key while the name of a file is typed.
    fn on_save_key(&mut self, key: Key) -> (r: Effects)
        requires
            old(self).wf(),
            old(self)@.explain.save_name() is Some,
        ensures
            final(self).wf(),
            actions::out_v(final(self)@, r) == old(self)@.save_key(
                old(self)@.explain.save_name()->0,
                old(self)@.explain->Result_0.text,
                key,
            ),
            answerable(actions::out_v(final(self)@, r)),
    {
        proof {
            reveal(AppV::save_key);
        }
        match key.code {
            KeyCode::Esc => {
                self.explain.cancel_save();
                Effects::quiet()
            },
            KeyCode::Enter => match self.explain.save_request() {
                Some((name, text)) => Effects::of(Action::SaveAnswer { name, text }),
                None => Effects::quiet(),
            },
            KeyCode::Backspace => {
                self.explain.save_input_backspace();
                Effects::quiet()
            },
            KeyCode::Char(c) => {
                self.explain.save_input_push(c);
                Effects::quiet()
            },
            _ => Effects::quiet(),
        }
    }

    /// A key while an answer is shown.
    fn on_answer_key(&mut self, key: Key) -> (r: Effects)
        requires
            old(self).wf(),
            old(self)@.explain is Result,
            old(self)@.explain.save_name() is None,
        ensures
            final(self).wf(),
            actions::out_v(final(self)@, r) == old(self)@.answer_key(key),
            answerable(actions::out_v(final(self)@, r)),
    {
        proof {
            reveal(AppV::answer_key);
        }
        match key.code {
            KeyCode::Char('j') | KeyCode::Down => {
                self.explain.scroll_by(1);
            },
            KeyCode::Char('k') | KeyCode::Up => {
                self.explain.scroll_by(-1);
            },
            KeyCode::Char('s') => {
                self.explain.start_save();
            },
            KeyCode::Esc | KeyCode::Enter | KeyCode::Char('q') | KeyCode::Char('e') => {
                self.explain.dismiss();
            },
            _ => {},
        }
        Effects::quiet()
    }

    /// A key while a commit message is prompted for: typing edits it, enter commits.
    pub fn on_commit_key(&mut self, key: Key) -> (r: Effects)
        requires
            old(self).wf(),
        ensures
            final(self).wf(),
            actions::out_v(final(self)@, r) == old(self)@.commit_key(key),
            answerable(actions::out_v(final(self)@, r)),
    {
        proof {
            reveal(AppV::commit_key);
        }
        if !self.commit.is_prompting() {
            return Effects::quiet();
        }
        match key.code {
            KeyCode::Esc => {
                self.commit = Commit::Idle;
                Effects::quiet()
            },
            KeyCode::Enter => self.do_commit(),
            KeyCode::Backspace => {
                self.commit.input_backspace();
                Effects::quiet()
            },
            KeyCode::Char(c) => {
                self.commit.input_push(c);
                Effects::quiet()
            },
            _ => Effects::quiet(),
        }
    }

    /// Filters the list anew.
    fn refilter(&mut self, filter: String, filtering: bool)
        requires
            old(self).wf(),
        ensures
            final(self).wf(),
            final(self)@ == (AppV {
                ov: OverviewV { filter: filter@, filtering, ..old(self)@.ov },
                ..old(self)@
            }).reordered(),
    {
        self.ov.filtering = filtering;
        self.ov.filter = filter;
        self.recompute_order();
    }

    /// A key while the filter is typed: the list follows.
    pub fn on_filter_key(&mut self, key: Key)
        requires
            old(self).wf(),
        ensures
            final(self).wf(),
            final(self)@ == old(self)@.filter_key(key),
    {
        proof {
            reveal(AppV::filter_key);
        }
        match key.code {
            KeyCode::Esc => {
                self.refilter(String::new(), false);
            },
            KeyCode::Enter => {
                self.ov.filtering = false;
            },
            KeyCode::Backspace => {
                let mut filter = self.ov.filter.clone();
                let _ = filter.pop();
                self.refilter(filter, self.ov.filtering);
            },
            KeyCode::Char(c) => {
                let mut filter = self.ov.filter.clone();
                filter.push(c);
                self.refilter(filter, self.ov.filtering);
            },
            _ => {},
        }
    }

    /// A key while a search is typed: the matches follow.
    pub fn on_search_key(&mut self, key: Key)
        requires
            old(self).wf(),
        ensures
            final(self).wf(),
            final(self)@ == old(self)@.search_key(key),
    {
        proof {
            reveal(AppV::search_key);
        }
        match key.code {
            KeyCode::Esc => {
                self.diff_searching = false;
                if let Some(d) = &mut self.diff {
                    d.clear_search();
                }
            },
            KeyCode::Enter => {
                self.diff_searching = false;
            },
            KeyCode::Backspace => {
                if let Some(d) = &mut self.diff {
                    d.search_pop();
                }
                self.recompute_matches(true);
            },
            KeyCode::Char(c) => {
                if let Some(d) = &mut self.diff {
                    d.search_push(c);
                }
                self.recompute_matches(true);
            },
            _ => {},
        }
    }
}

// ---- Screens ----

/// Half of the visible rows.
pub open spec fn page_v(viewport_rows: int) -> int {
    (if viewport_rows > 1 {
        viewport_rows
    } else {
        1
    }) / 2
}

/// The letter of a key; the arrows are letters too.
pub open spec fn letter_v(code: KeyCode) -> Option<char> {
    match code {
        KeyCode::Char(c) => Some(c),
        KeyCode::Down => Some('j'),
        KeyCode::Up => Some('k'),
        _ => None,
    }
}

impl AppV {
    /// With an operation on the open diff, where there is one.
    pub open spec fn on_diff(self, f: spec_fn(DiffV) -> DiffV) -> AppV {
        match self.diff {
            Some(d) => self.with_diff(f(d)),
            None => self,
        }
    }

    /// The second key of a sequence that moves within the open file; nothing where it is none.
    #[verifier::opaque]
    pub open spec fn sequence_within(self, prefix: char, c: char) -> Option<AppV> {
        if prefix == 'g' && c == 'g' {
            Some(self.on_diff(|d: DiffV| d.scrolled_to(0)))
        } else if prefix == ']' && c == 'h' {
            Some(self.on_diff(|d: DiffV| d.hunk_jumped(1)))
        } else if prefix == '[' && c == 'h' {
            Some(self.on_diff(|d: DiffV| d.hunk_jumped(-1)))
        } else if prefix == 'z' && c == 'R' {
            Some(self.on_diff(|d: DiffV| d.folded_all(true)))
        } else if prefix == 'z' && c == 'M' {
            Some(self.on_diff(|d: DiffV| d.folded_all(false)))
        } else {
            None
        }
    }

    /// The second key of a sequence that goes to another file; nothing where it is none.
    #[verifier::opaque]
    pub open spec fn sequence_across(self, prefix: char, c: char) -> Option<OutV> {
        if prefix == ']' && c == 'f' {
            Some(self.file_changed(1))
        } else if prefix == '[' && c == 'f' {
            Some(self.file_changed(-1))
        } else if prefix == ']' && c == 'r' {
            Some(self.related_jumped(1))
        } else if prefix == '[' && c == 'r' {
            Some(self.related_jumped(-1))
        } else {
            None
        }
    }

    /// The second key of a sequence; nothing where the two are no sequence.
    #[verifier::opaque]
    pub open spec fn sequence(self, prefix: char, key: Key) -> Option<OutV> {
        match key.code {
            KeyCode::Char(c) => match self.screen {
                Screen::Overview => if prefix == 'g' && c == 'g' {
                    Some((AppV { ov: self.ov.moved_to(0), ..self }).quiet())
                } else {
                    None
                },
                Screen::Diff => match self.sequence_within(prefix, c) {
                    Some(s) => Some(s.quiet()),
                    None => self.sequence_across(prefix, c),
                },
            },
            _ => None,
        }
    }

    /// A key that moves the cursor of the overview, or marks.
    #[verifier::opaque]
    pub open spec fn overview_motion(self, c: char, ctrl: bool) -> Option<AppV> {
        let page = page_v(self.ov.viewport_rows);
        if c == 'j' {
            Some(AppV { ov: self.ov.moved_by(1), ..self })
        } else if c == 'k' {
            Some(AppV { ov: self.ov.moved_by(-1), ..self })
        } else if c == 'd' && ctrl {
            Some(AppV { ov: self.ov.moved_by(page), ..self })
        } else if c == 'u' && ctrl {
            Some(AppV { ov: self.ov.moved_by(-page), ..self })
        } else if c == 'G' {
            Some(AppV { ov: self.ov.moved_to(self.ov.order.len() as int), ..self })
        } else if c == 's' {
            Some(AppV { ov: self.ov.resorted(self.changeset.files), ..self })
        } else if c == ' ' {
            Some(AppV { ov: self.ov.mark_toggled(), ..self })
        } else {
            None
        }
    }

    /// Another key of the overview.
    #[verifier::opaque]
    pub open spec fn overview_command(self, c: char) -> OutV {
        if c == 'g' {
            (AppV { pending: Some('g'), ..self }).quiet()
        } else if c == '/' {
            (AppV { ov: OverviewV { filtering: true, ..self.ov }, ..self }).quiet()
        } else if c == 'v' {
            self.viewed_toggled()
        } else if c == 't' {
            self.untracked_toggled()
        } else if c == 'C' {
            self.commit_started().quiet()
        } else if c == 'c' {
            (AppV { show_commits: true, ..self }).quiet()
        } else if c == 'o' {
            self.said("already on overview"@).quiet()
        } else {
            self.quiet()
        }
    }

    /// A key on the overview.
    #[verifier::opaque]
    pub open spec fn overview_key(self, key: Key) -> OutV {
        match letter_v(key.code) {
            Some(c) => match self.overview_motion(c, key.ctrl) {
                Some(s) => s.quiet(),
                None => self.overview_command(c),
            },
            None => if key.code == KeyCode::Enter {
                self.opening()
            } else {
                self.quiet()
            },
        }
    }

    /// A key that scrolls the diff, or folds it.
    #[verifier::opaque]
    pub open spec fn diff_motion(self, c: char, ctrl: bool) -> Option<AppV> {
        let page = match self.diff {
            Some(d) => page_v(d.viewport_rows),
            None => 1,
        };
        if c == 'j' {
            Some(self.on_diff(|d: DiffV| d.scrolled(1)))
        } else if c == 'k' {
            Some(self.on_diff(|d: DiffV| d.scrolled(-1)))
        } else if c == 'd' && ctrl {
            Some(self.on_diff(|d: DiffV| d.scrolled(page)))
        } else if c == 'u' && ctrl {
            Some(self.on_diff(|d: DiffV| d.scrolled(-page)))
        } else if c == 'G' {
            Some(self.on_diff(|d: DiffV| d.scrolled_to(d.total_rows)))
        } else if c == 'z' {
            Some(AppV { pending: Some('z'), ..self.on_diff(|d: DiffV| d.fold_expanded()) })
        } else if c == 'Z' {
            Some(self.on_diff(|d: DiffV| d.fold_collapsed()))
        } else {
            None
        }
    }

    /// A key that starts a sequence, changes the layout, or leaves the diff view.
    #[verifier::opaque]
    pub open spec fn diff_view_change(self, c: char) -> Option<AppV> {
        if c == 'g' || c == ']' || c == '[' {
            Some(AppV { pending: Some(c), ..self })
        } else if c == 'o' {
            Some(AppV { screen: Screen::Overview, ..self })
        } else if c == 's' {
            Some(self.mode_toggled())
        } else {
            None
        }
    }

    /// A key of the search in the diff view.
    #[verifier::opaque]
    pub open spec fn diff_search(self, c: char) -> Option<AppV> {
        if c == '/' {
            Some(AppV { diff_searching: true, ..self.on_diff(|d: DiffV| d.unsearched()) })
        } else if c == 'n' {
            Some(self.search_jumped(1))
        } else if c == 'N' {
            Some(self.search_jumped(-1))
        } else {
            None
        }
    }

    /// A key of the diff view that loads a file; others do nothing.
    #[verifier::opaque]
    pub open spec fn diff_loading(self, c: char) -> OutV {
        if c == 'v' {
            self.viewed_advanced()
        } else if c == 'w' {
            self.whitespace_cycled()
        } else {
            self.quiet()
        }
    }

    /// A key of the diff view that neither scrolls nor folds.
    #[verifier::opaque]
    pub open spec fn diff_command(self, c: char) -> OutV {
        match self.diff_view_change(c) {
            Some(s) => s.quiet(),
            None => match self.diff_search(c) {
                Some(s) => s.quiet(),
                None => self.diff_loading(c),
            },
        }
    }

    /// A key in the diff view.
    #[verifier::opaque]
    pub open spec fn diff_key(self, key: Key) -> OutV {
        match letter_v(key.code) {
            Some(c) => match self.diff_motion(c, key.ctrl) {
                Some(s) => s.quiet(),
                None => self.diff_command(c),
            },
            None => self.quiet(),
        }
    }

    /// A key that starts something anew.
    #[verifier::opaque]
    pub open spec fn fresh_key(self, key: Key) -> OutV {
        if key.code == KeyCode::Char('q') || key.code == KeyCode::Char('c') && key.ctrl {
            (AppV { should_quit: true, ..self }).quiet()
        } else if key.code == KeyCode::Char('?') {
            (AppV { show_help: true, ..self }).quiet()
        } else if key.code == KeyCode::Char('e') {
            self.explaining()
        } else {
            match self.screen {
                Screen::Overview => self.overview_key(key),
                Screen::Diff => if key.code == KeyCode::Esc {
                    (AppV { screen: Screen::Overview, ..self }).quiet()
                } else {
                    self.diff_key(key)
                },
            }
        }
    }

    /// A key while an overlay or a prompt takes all keys.
    #[verifier::opaque]
    pub open spec fn overlay_key(self, key: Key) -> Option<OutV> {
        if self.show_help {
            Some((AppV { show_help: false, ..self }).quiet())
        } else if self.show_commits {
            Some((AppV { show_commits: false, ..self }).quiet())
        } else if !(self.explain is Idle) {
            Some(self.explain_key(key))
        } else if !(self.commit is Idle) {
            Some(self.commit_key(key))
        } else if self.ov.filtering {
            Some(self.filter_key(key).quiet())
        } else if self.diff_searching {
            Some(self.search_key(key).quiet())
        } else {
            None
        }
    }

    /// What a key does. A key that is let go does nothing. Overlays and prompts come first, then
    /// sequences of two keys.
    pub open spec fn key(self, key: Key) -> OutV {
        let s = AppV { flash: None, ..self };
        let t = AppV { pending: None, ..s };
        if key.release {
            self.quiet()
        } else {
            match s.overlay_key(key) {
                Some(out) => out,
                None => match s.pending {
                    Some(prefix) => match t.sequence(prefix, key) {
                        Some(out) => out,
                        None => t.fresh_key(key),
                    },
                    None => t.fresh_key(key),
                },
            }
        }
    }
}

/// What is asked for can be answered: the file exists, the changes are read for the overview.
pub open spec fn answerable(out: OutV) -> bool {
    match out.action {
        ActionV::LoadFile(l) => l.file_index < out.app.changeset.files.len() && (l.enter
            ==> out.app.commit is Idle),
        ActionV::Rebuild { .. } => out.app.screen == Screen::Overview,
        _ => true,
    }
}

/// Half of the visible rows.
fn page(viewport_rows: usize) -> (r: isize)
    ensures
        r == page_v(viewport_rows as int),
        0 <= r,
{
    let rows: usize = if viewport_rows > 1 {
        viewport_rows
    } else {
        1
    };
    (rows / 2) as isize
}

/// The letter of a key; the arrows are letters too.
fn letter(code: KeyCode) -> (r: Option<char>)
    ensures
        r == letter_v(code),
{
    match code {
        KeyCode::Char(c) => Some(c),
        KeyCode::Down => Some('j'),
        KeyCode::Up => Some('k'),
        _ => None,
    }
}

impl App {
    /// The second key of a sequence that moves within the open file; false where it is none.
    fn on_sequence_within(&mut self, prefix: char, c: char) -> (r: bool)
        requires
            old(self).wf(),
        ensures
            final(self).wf(),
            r == old(self)@.sequence_within(prefix, c) is Some,
            r ==> old(self)@.sequence_within(prefix, c) == Some(final(self)@),
            !r ==> *final(self) == *old(self),
    {
        proof {
            reveal(AppV::sequence_within);
        }
        if prefix == 'g' && c == 'g' {
            self.diff_scroll_to(0);
        } else if prefix == ']' && c == 'h' {
            self.diff_jump_hunk(1);
        } else if prefix == '[' && c == 'h' {
            self.diff_jump_hunk(-1);
        } else if prefix == 'z' && c == 'R' {
            self.fold_all(true);
        } else if prefix == 'z' && c == 'M' {
            self.fold_all(false);
        } else {
            return false;
        }
        true
    }

    /// The second key of a sequence that goes to another file; nothing where it is none.
    fn on_sequence_across(&mut self, prefix: char, c: char) -> (r: Option<Effects>)
        requires
            old(self).wf(),
            old(self)@.commit is Idle,
        ensures
            final(self).wf(),
            match r {
                Some(e) => old(self)@.sequence_across(prefix, c) == Some(
                    actions::out_v(final(self)@, e),
                ) && answerable(actions::out_v(final(self)@, e)),
                None => old(self)@.sequence_across(prefix, c) is None && *final(self)
                    == *old(self),
            },
    {
        proof {
            reveal(AppV::sequence_across);
        }
        if prefix == ']' && c == 'f' {
            Some(self.diff_change_file(1))
        } else if prefix == '[' && c == 'f' {
            Some(self.diff_change_file(-1))
        } else if prefix == ']' && c == 'r' {
            Some(self.diff_jump_related(1))
        } else if prefix == '[' && c == 'r' {
            Some(self.diff_jump_related(-1))
        } else {
            None
        }
    }

    /// The second key of a sequence; nothing where the two are no sequence.
    pub fn on_sequence(&mut self, prefix: char, key: Key) -> (r: Option<Effects>)
        requires
            old(self).wf(),
            old(self)@.commit is Idle,
        ensures
            final(self).wf(),
            match r {
                Some(e) => old(self)@.sequence(prefix, key) == Some(actions::out_v(final(self)@, e))
                    && answerable(actions::out_v(final(self)@, e)),
                None => old(self)@.sequence(prefix, key) is None && *final(self) == *old(self),
            },
    {
        proof {
            reveal(AppV::sequence);
        }
        let c: char = match key.code {
            KeyCode::Char(c) => c,
            _ => {
                return None;
            },
        };
        if matches!(self.screen, Screen::Overview) {
            if prefix == 'g' && c == 'g' {
                self.cursor_to(0);
                return Some(Effects::quiet());
            }
            return None;
        }
        if self.on_sequence_within(prefix, c) {
            Some(Effects::quiet())
        } else {
            self.on_sequence_across(prefix, c)
        }
    }

    /// A key that moves the cursor of the overview, or marks; false where the key does neither.
    fn on_overview_motion(&mut self, c: char, ctrl: bool) -> (r: bool)
        requires
            old(self).wf(),
        ensures
            final(self).wf(),
            r == old(self)@.overview_motion(c, ctrl) is Some,
            r ==> old(self)@.overview_motion(c, ctrl) == Some(final(self)@),
            !r ==> *final(self) == *old(self),
    {
        proof {
            reveal(AppV::overview_motion);
        }
        let page: isize = page(self.ov.viewport_rows);
        if c == 'j' {
            self.cursor_by(1);
        } else if c == 'k' {
            self.cursor_by(-1);
        } else if c == 'd' && ctrl {
            self.cursor_by(page);
        } else if c == 'u' && ctrl {
            self.cursor_by(-page);
        } else if c == 'G' {
            self.cursor_to(self.ov.order.len());
        } else if c == 's' {
            self.cycle_sort();
        } else if c == ' ' {
            self.toggle_mark();
        } else {
            return false;
        }
        true
    }

    /// Another key of the overview.
    fn on_overview_command(&mut self, c: char) -> (r: Effects)
        requires
            old(self).wf(),
            old(self)@.screen == Screen::Overview,
        ensures
            final(self).wf(),
            actions::out_v(final(self)@, r) == old(self)@.overview_command(c),
            answerable(actions::out_v(final(self)@, r)),
    {
        proof {
            reveal(AppV::overview_command);
        }
        if c == 'g' {
            self.pending = Some('g');
        } else if c == '/' {
            self.ov.filtering = true;
        } else if c == 'v' {
            return self.toggle_viewed_selection();
        } else if c == 't' {
            return self.toggle_untracked();
        } else if c == 'C' {
            self.start_commit();
        } else if c == 'c' {
            self.show_commits = true;
        } else if c == 'o' {
            self.flash = Some("already on overview".to_owned());
        }
        Effects::quiet()
    }

    /// A key on the overview.
    pub fn on_overview_key(&mut self, key: Key) -> (r: Effects)
        requires
            old(self).wf(),
            old(self)@.commit is Idle,
            old(self)@.screen == Screen::Overview,
        ensures
            final(self).wf(),
            actions::out_v(final(self)@, r) == old(self)@.overview_key(key),
            answerable(actions::out_v(final(self)@, r)),
    {
        proof {
            reveal(AppV::overview_key);
        }
        match letter(key.code) {
            Some(c) => {
                if self.on_overview_motion(c, key.ctrl) {
                    Effects::quiet()
                } else {
                    self.on_overview_command(c)
                }
            },
            None => {
                if matches!(key.code, KeyCode::Enter) {
                    self.open_diff()
                } else {
                    Effects::quiet()
                }
            },
        }
    }

    /// A key that scrolls the diff, or folds it; false where the key does neither.
    fn on_diff_motion(&mut self, c: char, ctrl: bool) -> (r: bool)
        requires
            old(self).wf(),
        ensures
            final(self).wf(),
            r == old(self)@.diff_motion(c, ctrl) is Some,
            r ==> old(self)@.diff_motion(c, ctrl) == Some(final(self)@),
            !r ==> *final(self) == *old(self),
    {
        proof {
            reveal(AppV::diff_motion);
        }
        let page: isize = match &self.diff {
            Some(d) => page(d.viewport_rows),
            None => 1,
        };
        if c == 'j' {
            self.diff_scroll_by(1);
        } else if c == 'k' {
            self.diff_scroll_by(-1);
        } else if c == 'd' && ctrl {
            self.diff_scroll_by(page);
        } else if c == 'u' && ctrl {
            self.diff_scroll_by(-page);
        } else if c == 'G' {
            let rows: usize = match &self.diff {
                Some(d) => d.total_rows,
                None => 0,
            };
            self.diff_scroll_to(rows);
        } else if c == 'z' {
            // Opened at once; `zR` and `zM` may follow.
            self.fold_expand_nearest();
            self.pending = Some('z');
        } else if c == 'Z' {
            self.fold_collapse_nearest();
        } else {
            return false;
        }
        true
    }

    /// A key that starts a sequence, changes the layout, or leaves the diff view; false where the
    /// key does none of these.
    fn on_diff_view_change(&mut self, c: char) -> (r: bool)
        requires
            old(self).wf(),
        ensures
            final(self).wf(),
            r == old(self)@.diff_view_change(c) is Some,
            r ==> old(self)@.diff_view_change(c) == Some(final(self)@),
            !r ==> *final(self) == *old(self),
    {
        proof {
            reveal(AppV::diff_view_change);
        }
        if c == 'g' || c == ']' || c == '[' {
            self.pending = Some(c);
        } else if c == 'o' {
            self.back_to_overview();
        } else if c == 's' {
            self.toggle_mode();
        } else {
            return false;
        }
        true
    }

    /// A key of the search in the diff view; false where the key is none.
    fn on_diff_search(&mut self, c: char) -> (r: bool)
        requires
            old(self).wf(),
        ensures
            final(self).wf(),
            r == old(self)@.diff_search(c) is Some,
            r ==> old(self)@.diff_search(c) == Some(final(self)@),
            !r ==> *final(self) == *old(self),
    {
        proof {
            reveal(AppV::diff_search);
        }
        if c == '/' {
            self.start_search();
        } else if c == 'n' {
            self.search_jump(1);
        } else if c == 'N' {
            self.search_jump(-1);
        } else {
            return false;
        }
        true
    }

    /// A key of the diff view that loads a file; others do nothing.
    fn on_diff_loading(&mut self, c: char) -> (r: Effects)
        requires
            old(self).wf(),
            old(self)@.commit is Idle,
        ensures
            final(self).wf(),
            actions::out_v(final(self)@, r) == old(self)@.diff_loading(c),
            answerable(actions::out_v(final(self)@, r)),
    {
        proof {
            reveal(AppV::diff_loading);
        }
        if c == 'v' {
            self.diff_mark_viewed_advance()
        } else if c == 'w' {
            self.cycle_whitespace()
        } else {
            Effects::quiet()
        }
    }

    /// A key of the diff view that neither scrolls nor folds.
    fn on_diff_command(&mut self, c: char) -> (r: Effects)
        requires
            old(self).wf(),
            old(self)@.commit is Idle,
        ensures
            final(self).wf(),
            actions::out_v(final(self)@, r) == old(self)@.diff_command(c),
            answerable(actions::out_v(final(self)@, r)),
    {
        proof {
            reveal(AppV::diff_command);
        }
        if self.on_diff_view_change(c) || self.on_diff_search(c) {
            Effects::quiet()
        } else {
            self.on_diff_loading(c)
        }
    }

    /// A key in the diff view.
    pub fn on_diff_key(&mut self, key: Key) -> (r: Effects)
        requires
            old(self).wf(),
            old(self)@.commit is Idle,
        ensures
            final(self).wf(),
            actions::out_v(final(self)@, r) == old(self)@.diff_key(key),
            answerable(actions::out_v(final(self)@, r)),
    {
        proof {
            reveal(AppV::diff_key);
        }
        match letter(key.code) {
            Some(c) => {
                if self.on_diff_motion(c, key.ctrl) {
                    Effects::quiet()
                } else {
                    self.on_diff_command(c)
                }
            },
            None => Effects::quiet(),
        }
    }

    /// Starts to take a search.
    fn start_search(&mut self)
        requires
            old(self).wf(),
        ensures
            final(self).wf(),
            final(self)@ == (AppV {
                diff_searching: true,
                ..old(self)@.on_diff(|d: DiffV| d.unsearched())
            }),
    {
        self.diff_searching = true;
        if let Some(d) = &mut self.diff {
            d.clear_search();
        }
    }

    /// A key that starts something anew.
    fn on_fresh_key(&mut self, key: Key) -> (r: Effects)
        requires
            old(self).wf(),
            old(self)@.commit is Idle,
        ensures
            final(self).wf(),
            actions::out_v(final(self)@, r) == old(self)@.fresh_key(key),
            answerable(actions::out_v(final(self)@, r)),
    {
        proof {
            reveal(AppV::fresh_key);
        }
        match key.code {
            KeyCode::Char('q') => {
                self.should_quit = true;
                return Effects::quiet();
            },
            KeyCode::Char('c') => {
                if key.ctrl {
                    self.should_quit = true;
                    return Effects::quiet();
                }
            },
            KeyCode::Char('?') => {
                self.show_help = true;
                return Effects::quiet();
            },
            KeyCode::Char('e') => {
                return self.explain_current();
            },
            KeyCode::Esc => {
                if matches!(self.screen, Screen::Diff) {
                    self.back_to_overview();
                    return Effects::quiet();
                }
            },
            _ => {},
        }
        match self.screen {
            Screen::Overview => self.on_overview_key(key),
            Screen::Diff => self.on_diff_key(key),
        }
    }

    /// A key while an overlay or a prompt takes all keys; nothing where none does.
    fn on_overlay_key(&mut self, key: Key) -> (r: Option<Effects>)
        requires
            old(self).wf(),
        ensures
            final(self).wf(),
            match r {
                Some(e) => old(self)@.overlay_key(key) == Some(actions::out_v(final(self)@, e))
                    && answerable(actions::out_v(final(self)@, e)),
                None => old(self)@.overlay_key(key) is None && *final(self) == *old(self)
                    && final(self)@.commit is Idle,
            },
    {
        proof {
            reveal(AppV::overlay_key);
        }
        if self.show_help {
            self.show_help = false;
            return Some(Effects::quiet());
        }
        if self.show_commits {
            self.show_commits = false;
            return Some(Effects::quiet());
        }
        if self.explain.is_active() {
            return Some(self.on_explain_key(key));
        }
        if self.commit.is_active() {
            return Some(self.on_commit_key(key));
        }
        if self.ov.filtering {
            self.on_filter_key(key);
            return Some(Effects::quiet());
        }
        if self.diff_searching {
            self.on_search_key(key);
            return Some(Effects::quiet());
        }
        None
    }

    /// What a key does. A key that is let go does nothing.
    pub fn on_key(&mut self, key: Key) -> (r: Effects)
        requires
            old(self).wf(),
        ensures
            final(self).wf(),
            actions::out_v(final(self)@, r) == old(self)@.key(key),
            answerable(actions::out_v(final(self)@, r)),
    {
        if key.release {
            return Effects::quiet();
        }
        self.flash = None;
        if let Some(effects) = self.on_overlay_key(key) {
            return effects;
        }
        let prefix = self.pending;
        self.pending = None;
        if let Some(prefix) = prefix {
            if let Some(effects) = self.on_sequence(prefix, key) {
                return effects;
            }
        }
        self.on_fresh_key(key)
    }
}

} // verus!
