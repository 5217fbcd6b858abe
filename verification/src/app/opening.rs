//! Opening a file: its diff, its highlighting and the files that relate to it.
use std::collections::HashSet;
use vstd::prelude::*;

use crate::app::related;
use crate::git;
use crate::git::diff;
use crate::git::model;
use crate::syntax;
use crate::app;
use crate::changes;
use crate::app::{App, AppV, Screen};
use crate::app::coverage;
use crate::app::marks;
use crate::app::pairing;
use crate::app::pairing::{compute_intra};
use crate::app::related::{Blobs, BlobsV, all_facts, compute_related};
use crate::app::rows::{DiffState, DiffV, RelatedEntry, RelatedV, ViewMode, Whitespace};
use crate::git::Repo;
use crate::git::diff::CONTEXT_RADIUS;
use crate::git::model::{FileChange, FileDiff, FileDiffV, FileV, Hunk, HunkV};
use crate::style::Style;
use crate::syntax::{FactsV, Lang, Seg, Syntax};

verus! {

/// A request to read a file and open its diff.
#[derive(Clone, Copy, Debug)]
pub struct Load {
    pub file_index: usize,
    pub mode: ViewMode,
    /// The hunk to show; the first row where there is none.
    pub anchor: Option<usize>,
    /// Is the diff view to be entered?
    pub enter: bool,
}

/// The rows of the new text that name the hunks.
pub open spec fn context_rows_v(doc: FileDiffV) -> Seq<usize> {
    doc.hunks.map_values(|h: HunkV| model::hunk_context_row_v(doc.lines, h) as usize)
}

/// The hunks with the functions that enclose them.
pub open spec fn labelled_v(doc: FileDiffV, contexts: Seq<Option<Seq<char>>>) -> FileDiffV {
    FileDiffV {
        lines: doc.lines,
        hunks: Seq::new(
            doc.hunks.len(),
            |k: int|
                if k < contexts.len() {
                    HunkV { function_context: contexts[k], ..doc.hunks[k] }
                } else {
                    doc.hunks[k]
                },
        ),
    }
}

/// The diff of a file, the highlighting of both sides, and with each hunk the function that
/// encloses it; without the latter two where the language is unknown.
pub open spec fn contents_v(f: FileV, b: BlobsV, ignore_ws: bool, styles: Seq<Style>) -> (
    FileDiffV,
    Option<Seq<Seq<(Seq<char>, Style)>>>,
    Option<Seq<Seq<(Seq<char>, Style)>>>,
) {
    let doc = git::load_file_diff_v(f, b.old, b.new, CONTEXT_RADIUS as nat, ignore_ws);
    match Lang::from_path_v(f.path) {
        Some(lang) => {
            let texts = git::file_texts_v(f, b.old, b.new);
            (
                labelled_v(doc, syntax::contexts_v(texts.1, lang, context_rows_v(doc))),
                syntax::highlight_v(texts.0, lang, styles),
                syntax::highlight_v(texts.1, lang, styles),
            )
        },
        None => (doc, None, None),
    }
}

/// The view of a file that was just opened, at its top.
#[verifier::opaque]
pub open spec fn opened_v(
    f: FileV,
    file_index: int,
    b: BlobsV,
    mode: ViewMode,
    whitespace: Whitespace,
    styles: Seq<Style>,
) -> DiffV {
    let (doc, old_hl, new_hl) = contents_v(f, b, whitespace == Whitespace::Ignore, styles);
    let pairs = pairing::pairs_v(doc.lines, doc.hunks, doc.hunks.len());
    (DiffV {
        scroll: 0,
        doc,
        file_index,
        expanded: Set::empty(),
        rows: Seq::empty(),
        sep_rows: Seq::empty(),
        viewport_rows: 1,
        total_rows: 0,
        mode,
        whitespace,
        old_hl,
        new_hl,
        related: Seq::empty(),
        intra: pairing::intra_v(doc.lines, pairs),
        ws_only: pairing::ws_only_v(doc.lines, pairs),
        search: Seq::empty(),
        matches: Seq::empty(),
        match_idx: 0,
    }).rebuilt()
}

/// Labels keep the hunks where they are.
proof fn lemma_labelled(doc: FileDiffV, contexts: Seq<Option<Seq<char>>>)
    requires
        coverage::laid_out(doc),
    ensures
        coverage::laid_out(labelled_v(doc, contexts)),
{
    let l = labelled_v(doc, contexts);
    assert forall|j: int| 0 <= j < l.lines.len() && (#[trigger] l.lines[j]).is_change() implies exists|
        k: int,
    | 0 <= k < l.hunks.len() && #[trigger] diff::in_hunk(l.hunks[k], j) by {
        assert(doc.lines[j].is_change());
        let k = choose|k: int| 0 <= k < doc.hunks.len() && #[trigger] diff::in_hunk(doc.hunks[k], j);
        assert(diff::in_hunk(l.hunks[k], j));
    }
}

/// What the diff of a file tells of its contents, where it has any that are diffed.
pub open spec fn doc_told(doc: FileDiffV, f: FileV, b: BlobsV, ignore_ws: bool) -> bool {
    let texts = git::file_texts_v(f, b.old, b.new);
    f.special is Plain || f.special is Symlink ==> diff::tells(doc, texts.0, texts.1, ignore_ws)
}

/// The view of a file tells what its whitespace mode asks for, and its marks are those of its lines.
pub open spec fn told(d: DiffV, f: FileV, b: BlobsV, whitespace: Whitespace) -> bool {
    &&& d.whitespace == whitespace
    &&& doc_told(d.doc, f, b, whitespace is Ignore)
    &&& marks::pairs_marked(
        d.doc.lines,
        pairing::pairs_v(d.doc.lines, d.doc.hunks, d.doc.hunks.len()),
        d.intra,
    )
}

/// Labels change nothing that a diff tells.
proof fn lemma_labelled_told(
    doc: FileDiffV,
    contexts: Seq<Option<Seq<char>>>,
    f: FileV,
    b: BlobsV,
    ignore_ws: bool,
)
    requires
        doc_told(doc, f, b, ignore_ws),
    ensures
        doc_told(labelled_v(doc, contexts), f, b, ignore_ws),
{
    let l = labelled_v(doc, contexts);
    if f.special is Plain || f.special is Symlink {
        assert forall|k: int| 0 <= k < l.hunks.len() implies diff::headed(
            l.lines,
            #[trigger] l.hunks[k],
        ) by {
            assert(diff::headed(doc.lines, doc.hunks[k]));
        }
    }
}

/// The rows of the new text that name the hunks.
fn context_rows(doc: &FileDiff) -> (r: Vec<usize>)
    requires
        coverage::laid_out(doc.deep_view()),
    ensures
        r@ == context_rows_v(doc.deep_view()),
{
    let ghost d = doc.deep_view();
    let mut rows: Vec<usize> = Vec::new();
    let mut k: usize = 0;
    while k < doc.hunks.len()
        invariant
            k <= doc.hunks@.len(),
            d == doc.deep_view(),
            coverage::laid_out(d),
            rows@ =~= context_rows_v(d).take(k as int),
        decreases doc.hunks@.len() - k,
    {
        assert(d.hunks[k as int] == doc.hunks@[k as int].deep_view());
        rows.push(doc.hunk_context_row(&doc.hunks[k]));
        k = k + 1;
    }
    rows
}

/// Labels the hunks.
fn label_hunks(doc: FileDiff, contexts: Vec<Option<String>>) -> (r: FileDiff)
    ensures
        r.deep_view() == labelled_v(doc.deep_view(), contexts.deep_view()),
{
    let ghost d = doc.deep_view();
    let ghost cs = contexts.deep_view();
    let ghost want = labelled_v(d, cs);
    let mut hunks: Vec<Hunk> = Vec::new();
    let mut k: usize = 0;
    while k < doc.hunks.len()
        invariant
            k <= doc.hunks@.len(),
            d == doc.deep_view(),
            cs == contexts.deep_view(),
            want == labelled_v(d, cs),
            hunks.deep_view() =~= want.hunks.take(k as int),
        decreases doc.hunks@.len() - k,
    {
        let ghost before = hunks.deep_view();
        let h = &doc.hunks[k];
        assert(d.hunks[k as int] == doc.hunks@[k as int].deep_view());
        let context: Option<String> = if k < contexts.len() {
            assert(cs[k as int] == contexts@[k as int].deep_view());
            match &contexts[k] {
                Some(c) => Some(c.clone()),
                None => None,
            }
        } else {
            match &h.function_context {
                Some(c) => Some(c.clone()),
                None => None,
            }
        };
        let labelled = Hunk {
            old_start: h.old_start,
            old_lines: h.old_lines,
            new_start: h.new_start,
            new_lines: h.new_lines,
            function_context: context,
            line_range: std::ops::Range { start: h.line_range.start, end: h.line_range.end },
        };
        assert(labelled.deep_view() == want.hunks[k as int]);
        hunks.push(labelled);
        assert(hunks.deep_view() =~= before.push(want.hunks[k as int]));
        k = k + 1;
    }
    assert(hunks.deep_view() =~= want.hunks);
    FileDiff { lines: doc.lines, hunks }
}

/// The view of a file that was just opened.
fn opened(
    syntax: &mut Syntax,
    f: &FileChange,
    file_index: usize,
    b: &Blobs,
    mode: ViewMode,
    whitespace: Whitespace,
) -> (r: DiffState)
    requires
        old(syntax).wf(),
    ensures
        final(syntax).wf(),
        final(syntax).styles() == old(syntax).styles(),
        r.deep_view() == opened_v(
            f.deep_view(),
            file_index as int,
            b.deep_view(),
            mode,
            whitespace,
            old(syntax).styles(),
        ),
        r.deep_view().wf(),
        r.file_index == file_index,
        told(r.deep_view(), f.deep_view(), b.deep_view(), whitespace),
{
    proof {
        reveal(opened_v);
        reveal(DiffV::wf);
    }
    let ignore_ws: bool = matches!(whitespace, Whitespace::Ignore);
    let mut doc = Repo::load_file_diff(f, &b.old, &b.new, CONTEXT_RADIUS, ignore_ws);
    let mut old_hl: Option<Vec<Vec<Seg>>> = None;
    let mut new_hl: Option<Vec<Vec<Seg>>> = None;
    if let Some(lang) = Lang::from_path(f.path.as_str()) {
        let (old_text, new_text) = Repo::file_texts(f, &b.old, &b.new);
        old_hl = syntax.highlight(old_text.as_str(), lang);
        new_hl = syntax.highlight(new_text.as_str(), lang);
        let rows = context_rows(&doc);
        let contexts = syntax.contexts(new_text.as_str(), lang, &rows);
        proof {
            lemma_labelled(doc.deep_view(), contexts.deep_view());
            lemma_labelled_told(
                doc.deep_view(),
                contexts.deep_view(),
                f.deep_view(),
                b.deep_view(),
                ignore_ws,
            );
        }
        doc = label_hunks(doc, contexts);
    }
    assert(doc_told(doc.deep_view(), f.deep_view(), b.deep_view(), ignore_ws));
    let (intra, ws_only) = compute_intra(&doc);
    let mut state = DiffState {
        scroll: 0,
        doc,
        file_index,
        expanded: HashSet::new(),
        rows: Vec::new(),
        sep_rows: Vec::new(),
        viewport_rows: 1,
        total_rows: 0,
        mode,
        whitespace,
        old_hl,
        new_hl,
        related: Vec::new(),
        intra,
        ws_only,
        search: String::new(),
        matches: Vec::new(),
        match_idx: 0,
    };
    assert(state.related.deep_view() =~= Seq::empty());
    state.rebuild_rows();
    state
}

/// The view of a file with the files that relate to it, at a hunk.
pub open spec fn completed_v(d: DiffV, related: Seq<RelatedV>, anchor: Option<usize>) -> DiffV {
    let d = DiffV { related, ..d };
    match anchor {
        Some(hunk) => d.anchored(hunk as int),
        None => d,
    }
}

/// The view of a file with the files that relate to it, at a hunk.
fn completed(state: DiffState, related: Vec<RelatedEntry>, anchor: Option<usize>) -> (r: DiffState)
    ensures
        r.deep_view() == completed_v(state.deep_view(), related.deep_view(), anchor),
        state.deep_view().wf() ==> r.deep_view().wf(),
        forall|f: FileV, b: BlobsV, whitespace: Whitespace|
            told(state.deep_view(), f, b, whitespace) ==> #[trigger] told(
                r.deep_view(),
                f,
                b,
                whitespace,
            ),
        r.file_index == state.file_index,
        r.deep_view().related == related.deep_view(),
{
    proof {
        reveal(DiffV::wf);
    }
    let mut state = state;
    state.related = related;
    if let Some(hunk) = anchor {
        state.anchor(hunk);
    }
    state
}

impl AppV {
    /// How whitespace is treated: as in the file before.
    pub open spec fn whitespace(self) -> Whitespace {
        match self.diff {
            Some(d) => d.whitespace,
            None => Whitespace::Show,
        }
    }

    /// The facts of all files: those that are known, else those of the contents.
    pub open spec fn known_facts(self, all: Option<Seq<BlobsV>>) -> Seq<FactsV> {
        match self.facts {
            Some(f) => f,
            None => related::all_facts_v(self.changeset.files, all.unwrap()),
        }
    }

    /// With a file opened, given its contents, and those of all files where no facts are known.
    pub open spec fn loaded(self, load: Load, b: BlobsV, all: Option<Seq<BlobsV>>) -> AppV {
        let facts = self.known_facts(all);
        let files = self.changeset.files;
        let opened = opened_v(
            files[load.file_index as int],
            load.file_index as int,
            b,
            load.mode,
            self.whitespace(),
            self.styles,
        );
        AppV {
            diff: Some(
                completed_v(
                    opened,
                    related::related_v(files, facts, load.file_index as int),
                    load.anchor,
                ),
            ),
            facts: Some(facts),
            screen: if load.enter {
                Screen::Diff
            } else {
                self.screen
            },
            ..self
        }
    }
}

impl App {
    /// Opens a file that was asked for, given its contents; those of all files are needed where the
    /// facts of the files are not known yet.
    pub fn load_current_file(&mut self, load: Load, b: &Blobs, all: &Option<Vec<Blobs>>)
        requires
            old(self).wf(),
            load.file_index < old(self)@.changeset.files.len(),
            load.enter ==> old(self)@.commit is Idle,
            old(self)@.facts is None ==> (all matches Some(bs) && bs@.len()
                == old(self)@.changeset.files.len()),
        ensures
            final(self).wf(),
            final(self)@ == old(self)@.loaded(load, b.deep_view(), all.deep_view()),
            final(self)@.diff matches Some(d) && told(
                d,
                old(self)@.changeset.files[load.file_index as int],
                b.deep_view(),
                old(self)@.whitespace(),
            ),
    {
        let state = self.view_of(load, b);
        self.ensure_facts(all);
        let related = self.related_to(load.file_index);
        let state = completed(state, related, load.anchor);
        let ghost mid = self@;
        assert(mid == (AppV { facts: mid.facts, ..old(self)@ }));
        assert(mid.facts == Some(old(self)@.known_facts(all.deep_view())));
        self.show(state, load.enter);
    }

    /// The view of a file, with whitespace treated as in the file before.
    fn view_of(&mut self, load: Load, b: &Blobs) -> (r: DiffState)
        requires
            old(self).wf(),
            load.file_index < old(self)@.changeset.files.len(),
        ensures
            final(self).wf(),
            final(self)@ == old(self)@,
            r.deep_view() == opened_v(
                old(self)@.changeset.files[load.file_index as int],
                load.file_index as int,
                b.deep_view(),
                load.mode,
                old(self)@.whitespace(),
                old(self)@.styles,
            ),
            r.deep_view().wf(),
            r.file_index == load.file_index,
            told(
                r.deep_view(),
                old(self)@.changeset.files[load.file_index as int],
                b.deep_view(),
                old(self)@.whitespace(),
            ),
    {
        let fi: usize = load.file_index;
        let whitespace: Whitespace = match &self.diff {
            Some(d) => d.whitespace,
            None => Whitespace::Show,
        };
        assert(self@.changeset.files[fi as int] == self.changeset.files@[fi as int].deep_view());
        opened(&mut self.syntax, &self.changeset.files[fi], fi, b, load.mode, whitespace)
    }

    /// The files that relate to a file.
    fn related_to(&self, a: usize) -> (r: Vec<RelatedEntry>)
        requires
            a < self@.changeset.files.len(),
            self@.facts matches Some(f) && f.len() == self@.changeset.files.len(),
        ensures
            r.deep_view() == related::related_v(
                self@.changeset.files,
                self@.facts.unwrap(),
                a as int,
            ),
            forall|i: int|
                0 <= i < r.deep_view().len() ==> 0 <= (#[trigger] r.deep_view()[i]).file_index
                    < self@.changeset.files.len(),
    {
        match &self.facts {
            Some(facts) => {
                proof {
                    related::law_related(self@.changeset.files, facts.deep_view(), a as int);
                }
                compute_related(&self.changeset.files, facts, a)
            },
            None => Vec::new(),
        }
    }

    /// Shows the view of a file.
    fn show(&mut self, state: DiffState, enter: bool)
        requires
            old(self).wf(),
            state.deep_view().wf(),
            app::shows(state.deep_view(), old(self)@.changeset.files.len()),
            enter ==> old(self)@.commit is Idle,
        ensures
            final(self).wf(),
            final(self)@ == (AppV {
                diff: Some(state.deep_view()),
                screen: if enter {
                    Screen::Diff
                } else {
                    old(self)@.screen
                },
                ..old(self)@
            }),
    {
        self.diff = Some(state);
        if enter {
            self.screen = Screen::Diff;
        }
    }

    /// Finds, once, what all files define and use.
    fn ensure_facts(&mut self, all: &Option<Vec<Blobs>>)
        requires
            old(self)@.facts is None ==> (all matches Some(bs) && bs@.len()
                == old(self)@.changeset.files.len()),
        ensures
            final(self)@ == (AppV {
                facts: Some(old(self)@.known_facts(all.deep_view())),
                ..old(self)@
            }),
            final(self).syntax == old(self).syntax,
    {
        if self.facts.is_none() {
            if let Some(blobs) = all {
                self.facts = Some(all_facts(&self.syntax, &self.changeset.files, blobs));
            }
        }
    }
}

// ---- What an opened file shows ----

/// A file opened with whitespace shown or dimmed has the lines of the diff of its texts as they
/// are, and with whitespace ignored those of the diff of their lines when normalized; either way
/// its hunks hold three unchanged lines around each change.
pub proof fn law_opened_lines(
    f: FileV,
    file_index: int,
    b: BlobsV,
    mode: ViewMode,
    whitespace: Whitespace,
    styles: Seq<Style>,
)
    requires
        f.special is Plain || f.special is Symlink,
    ensures
        ({
            let d = opened_v(f, file_index, b, mode, whitespace, styles);
            let (old, new) = git::file_texts_v(f, b.old, b.new);
            let lines = diff::diff_lines_v(old, new, whitespace is Ignore);
            &&& d.doc.lines == lines
            &&& d.doc.hunks.len() == diff::hunks_v(lines, 3).len()
            &&& forall|k: int|
                #![trigger d.doc.hunks[k]]
                0 <= k < d.doc.hunks.len() ==> d.doc.hunks[k].start == diff::hunks_v(
                    lines,
                    3,
                )[k].start && d.doc.hunks[k].end == diff::hunks_v(lines, 3)[k].end
        }),
{
    reveal(opened_v);
}

/// A file opened with whitespace ignored whose sides have the same words line by line has no hunk
/// and no separator, as long as a diff of equal lists keeps them.
pub proof fn law_opened_without_whitespace(
    f: FileV,
    file_index: int,
    b: BlobsV,
    mode: ViewMode,
    styles: Seq<Style>,
)
    requires
        f.special is Plain || f.special is Symlink,
        ({
            let (old, new) = git::file_texts_v(f, b.old, b.new);
            diff::line_words_v(old) == diff::line_words_v(new)
        }),
        forall|xs: Seq<Seq<char>>| changes::all_kept(#[trigger] changes::slice_changes_v(xs, xs)),
    ensures
        opened_v(f, file_index, b, mode, Whitespace::Ignore, styles).doc.hunks.len() == 0,
        opened_v(f, file_index, b, mode, Whitespace::Ignore, styles).sep_rows.len() == 0,
{
    reveal(opened_v);
    let (old, new) = git::file_texts_v(f, b.old, b.new);
    diff::law_same_words_no_hunk(old, new, CONTEXT_RADIUS as nat);
}

/// What a file is opened with: at its top, all folds closed, nothing searched for, in the layout and
/// with the whitespace that were asked for. Dimming whitespace shows the same lines as showing it.
pub proof fn law_opened_afresh(
    f: FileV,
    file_index: int,
    b: BlobsV,
    mode: ViewMode,
    whitespace: Whitespace,
    styles: Seq<Style>,
)
    ensures
        ({
            let d = opened_v(f, file_index, b, mode, whitespace, styles);
            &&& d.file_index == file_index && d.mode == mode && d.whitespace == whitespace
            &&& d.scroll == 0 && d.match_idx == 0
            &&& d.expanded == Set::<usize>::empty()
            &&& d.search.len() == 0 && d.matches.len() == 0
            &&& d.total_rows == d.rows.len()
        }),
        opened_v(f, file_index, b, mode, Whitespace::Dim, styles).doc == opened_v(
            f,
            file_index,
            b,
            mode,
            Whitespace::Show,
            styles,
        ).doc,
{
    reveal(opened_v);
}

/// The left column is highlighted from the old contents and the right one from the new: each
/// depends on its own side alone, and a file that is looked at from the other side has them
/// swapped.
pub proof fn law_sides_are_highlighted(
    f: FileV,
    file_index: int,
    b: BlobsV,
    other: BlobsV,
    mode: ViewMode,
    whitespace: Whitespace,
    styles: Seq<Style>,
)
    ensures
        ({
            let d = opened_v(f, file_index, b, mode, whitespace, styles);
            let e = opened_v(f, file_index, other, mode, whitespace, styles);
            &&& b.old == other.old ==> d.old_hl == e.old_hl
            &&& b.new == other.new ==> d.new_hl == e.new_hl
            &&& b.old == other.new ==> d.old_hl == e.new_hl
            &&& Lang::from_path_v(f.path) matches Some(lang) ==> d.new_hl == syntax::highlight_v(
                git::file_texts_v(f, b.old, b.new).1,
                lang,
                styles,
            )
        }),
{
    reveal(opened_v);
}

} // verus!
