//! Line diffs of two texts.
//!
//! Two diffs are made of a file:
//!
//! * the display diff, of the lines as they are, which is shown and counted, and
//! * the canonical diff, of whitespace-normalized lines, from which the stable
//!   [`content_hash`](super::model::FileChange::content_hash) comes that keys the viewed status. A
//!   whitespace-only edit hashes as no edit, so that ignoring whitespace never makes a viewed file
//!   unviewed.
use vstd::prelude::*;
use vstd::string::*;
use vstd::utf8::*;

use crate::changes;
use crate::text;
use crate::changes::{grouped_changes, line_changes, slice_changes, Change, ChangeV, Tag};
use crate::git::model::{DiffLine, FileDiff, FileDiffV, Hunk, HunkV, LineV};
use crate::text::{chars_of, join, lines, slice_string, words};

verus! {

broadcast use vstd::seq_lib::group_seq_properties;

/// The lines of context round a change, in the canonical diff and in the view.
pub const CONTEXT_RADIUS: usize = 3;

/// How far into a blob a zero byte marks it as binary.
pub const BINARY_SCAN: usize = 8000;

/// Whether a blob is taken as binary: a zero byte stands among its first bytes.
pub open spec fn looks_binary_v(bytes: Seq<u8>) -> bool {
    exists|i: int| 0 <= i < bytes.len() && i < BINARY_SCAN && #[trigger] bytes[i] == 0
}

/// Git's heuristic: a blob is binary if a zero byte stands early in it.
pub fn looks_binary(bytes: &[u8]) -> (r: bool)
    ensures
        r == looks_binary_v(bytes@),
{
    let mut i: usize = 0;
    while i < bytes.len() && i < BINARY_SCAN
        invariant
            i <= bytes@.len(),
            forall|j: int| 0 <= j < i ==> bytes@[j] != 0,
        decreases bytes@.len() - i,
    {
        if bytes[i] == 0 {
            return true;
        }
        i = i + 1;
    }
    false
}

/// `s` without one line terminator at its end.
pub fn trim_eol(s: &str) -> (r: String)
    ensures
        r@ == text::trim_eol_v(s@),
{
    let cs = chars_of(s);
    let n: usize = cs.len();
    let end: usize = if n > 0 && cs[n - 1] == '\n' {
        if n > 1 && cs[n - 2] == '\r' {
            n - 2
        } else {
            n - 1
        }
    } else {
        n
    };
    let r = slice_string(&cs, 0, end);
    assert(r@ =~= text::trim_eol_v(s@));
    r
}

/// `line` with its runs of whitespace collapsed to one space and none at its ends.
pub fn normalize_line(line: &str) -> (r: String)
    ensures
        r@ == text::normalize_v(line@),
{
    let parts = words(line);
    join(parts.as_slice(), " ")
}

/// Lines, each normalized.
pub open spec fn normalized_v(lines: Seq<Seq<char>>) -> Seq<Seq<char>> {
    lines.map_values(|l: Seq<char>| text::normalize_v(l))
}

/// `lines`, each normalized.
fn normalized(lines: &Vec<String>) -> (r: Vec<String>)
    ensures
        r.deep_view() == normalized_v(lines.deep_view()),
{
    let mut out: Vec<String> = Vec::new();
    let mut i: usize = 0;
    while i < lines.len()
        invariant
            i <= lines@.len(),
            out.deep_view() =~= normalized_v(lines.deep_view()).take(i as int),
        decreases lines@.len() - i,
    {
        let ghost before = out.deep_view();
        let l = normalize_line(lines[i].as_str());
        assert(lines.deep_view()[i as int] == lines@[i as int]@);
        out.push(l);
        assert(out.deep_view() =~= before.push(l@));
        i = i + 1;
    }
    assert(out.deep_view() =~= normalized_v(lines.deep_view()));
    out
}

/// How many changes carry a tag.
pub open spec fn count_tag(cs: Seq<ChangeV>, tag: Tag) -> nat
    decreases cs.len(),
{
    if cs.len() == 0 {
        0
    } else {
        count_tag(cs.drop_last(), tag) + (if cs.last().tag == tag {
            1nat
        } else {
            0nat
        })
    }
}

/// How many lines the display diff of two texts adds and deletes.
pub fn count_stats(old: &str, new: &str) -> (r: (usize, usize))
    ensures
        r.0 == count_tag(changes::line_changes_v(old@, new@), Tag::Insert),
        r.1 == count_tag(changes::line_changes_v(old@, new@), Tag::Delete),
{
    let changes = line_changes(old, new);
    stats_of(&changes)
}

/// How many changes insert and how many delete.
pub fn stats_of(changes: &Vec<Change>) -> (r: (usize, usize))
    ensures
        r.0 == count_tag(changes.deep_view(), Tag::Insert),
        r.1 == count_tag(changes.deep_view(), Tag::Delete),
{
    let ghost cs = changes.deep_view();
    let mut adds: usize = 0;
    let mut dels: usize = 0;
    let mut i: usize = 0;
    while i < changes.len()
        invariant
            i <= changes@.len(),
            cs == changes.deep_view(),
            adds <= i,
            dels <= i,
            adds == count_tag(cs.take(i as int), Tag::Insert),
            dels == count_tag(cs.take(i as int), Tag::Delete),
        decreases changes@.len() - i,
    {
        assert(cs.take(i + 1).drop_last() =~= cs.take(i as int));
        assert(cs[i as int] == changes@[i as int].deep_view());
        match changes[i].tag {
            Tag::Insert => {
                adds = adds + 1;
            },
            Tag::Delete => {
                dels = dels + 1;
            },
            Tag::Equal => {},
        }
        i = i + 1;
    }
    assert(cs.take(cs.len() as int) =~= cs);
    (adds, dels)
}

// ---- The content hash ----

/// A streaming SeaHash state.
#[verifier::external_type_specification]
#[verifier::external_body]
pub struct ExSeaHasher(seahash::SeaHasher);

/// The bytes that have been written to a hasher, in order.
pub uninterp spec fn hashed(h: seahash::SeaHasher) -> Seq<u8>;

/// The SeaHash of some bytes.
pub uninterp spec fn sea_hash_v(bytes: Seq<u8>) -> u64;

/// `seahash::SeaHasher::new`: a hasher to which nothing has been written.
#[verifier::external_body]
pub(crate) fn hasher_new() -> (h: seahash::SeaHasher)
    ensures
        hashed(h) == Seq::<u8>::empty(),
{
    seahash::SeaHasher::new()
}

/// `write` of `seahash::SeaHasher`: appends the bytes. The hasher gathers a tail of fewer than
/// eight bytes between writes, so that it does not matter how the bytes are cut into writes.
#[verifier::external_body]
pub(crate) fn hasher_write(h: &mut seahash::SeaHasher, bytes: &[u8])
    ensures
        hashed(*final(h)) == hashed(*old(h)) + bytes@,
{
    std::hash::Hasher::write(h, bytes)
}

/// `write_u8` of `seahash::SeaHasher`: appends one byte.
#[verifier::external_body]
pub(crate) fn hasher_write_u8(h: &mut seahash::SeaHasher, byte: u8)
    ensures
        hashed(*final(h)) == hashed(*old(h)).push(byte),
{
    std::hash::Hasher::write_u8(h, byte)
}

/// `finish` of `seahash::SeaHasher`: the hash of the bytes written. Claimed of it: it depends on
/// those bytes alone.
#[verifier::external_body]
pub(crate) fn hasher_finish(h: &seahash::SeaHasher) -> (r: u64)
    ensures
        r == sea_hash_v(hashed(*h)),
{
    std::hash::Hasher::finish(h)
}

/// A text, whitespace-normalized line by line.
pub open spec fn canonical_v(text: Seq<char>) -> Seq<char> {
    text::join_v(normalized_v(text::lines_v(text)), "\n"@)
}

/// `text`, whitespace-normalized line by line.
pub fn canonical(text: &str) -> (r: String)
    ensures
        r@ == canonical_v(text@),
{
    let ls = lines(text);
    let norm = normalized(&ls);
    join(norm.as_slice(), "\n")
}

/// The byte that stands for a tag in what is hashed.
pub open spec fn tag_byte_v(tag: Tag) -> u8 {
    match tag {
        Tag::Equal => 0x20,
        Tag::Delete => 0x2d,
        Tag::Insert => 0x2b,
    }
}

/// What is hashed of some changes: for each its tag, its line and a newline.
pub open spec fn change_bytes_v(cs: Seq<ChangeV>) -> Seq<u8>
    decreases cs.len(),
{
    if cs.len() == 0 {
        Seq::empty()
    } else {
        (change_bytes_v(cs.drop_last()).push(tag_byte_v(cs.last().tag)) + encode_utf8(
            text::trim_eol_v(cs.last().value),
        )).push(0x0a)
    }
}

/// What is hashed of a file: its path, a separator, and its canonical changes.
pub open spec fn hash_input_v(path: Seq<char>, cs: Seq<ChangeV>) -> Seq<u8> {
    encode_utf8(path).push(0xff) + change_bytes_v(cs)
}

/// The content hash of a file with a path and two sides.
pub open spec fn content_hash_v(path: Seq<char>, old: Seq<char>, new: Seq<char>) -> u64 {
    sea_hash_v(
        hash_input_v(
            path,
            changes::grouped_changes_v(canonical_v(old), canonical_v(new), CONTEXT_RADIUS as nat),
        ),
    )
}

/// A stable, whitespace-insensitive hash of the canonical diff (changed lines and their context)
/// and of the path, which tells files with the same diff apart.
///
/// The value is kept on disk, so it must be the same in every run.
pub fn content_hash(path: &str, old: &str, new: &str) -> (r: u64)
    ensures
        r == content_hash_v(path@, old@, new@),
{
    let old_norm = canonical(old);
    let new_norm = canonical(new);
    let changes = grouped_changes(old_norm.as_str(), new_norm.as_str(), CONTEXT_RADIUS);
    hash_changes(path, &changes)
}

/// The hash of a path and of canonical changes.
pub fn hash_changes(path: &str, changes: &Vec<Change>) -> (r: u64)
    ensures
        r == sea_hash_v(hash_input_v(path@, changes.deep_view())),
{
    let ghost cs = changes.deep_view();
    let ghost head = encode_utf8(path@).push(0xff);
    let mut hasher = hasher_new();
    hasher_write(&mut hasher, path.as_bytes());
    hasher_write_u8(&mut hasher, 0xff);
    assert(hashed(hasher) =~= head + change_bytes_v(cs.take(0)));
    let mut i: usize = 0;
    while i < changes.len()
        invariant
            i <= changes@.len(),
            cs == changes.deep_view(),
            hashed(hasher) == head + change_bytes_v(cs.take(i as int)),
        decreases changes@.len() - i,
    {
        assert(cs.take(i + 1).drop_last() =~= cs.take(i as int));
        assert(cs[i as int] == changes@[i as int].deep_view());
        let tag: u8 = match changes[i].tag {
            Tag::Equal => 0x20,
            Tag::Delete => 0x2d,
            Tag::Insert => 0x2b,
        };
        let line = trim_eol(changes[i].value.as_str());
        hasher_write_u8(&mut hasher, tag);
        hasher_write(&mut hasher, line.as_str().as_bytes());
        hasher_write_u8(&mut hasher, 0x0a);
        assert(hashed(hasher) =~= head + change_bytes_v(cs.take(i + 1)));
        i = i + 1;
    }
    assert(cs.take(cs.len() as int) =~= cs);
    hasher_finish(&hasher)
}

/// The words of each line of a text.
pub open spec fn line_words_v(text: Seq<char>) -> Seq<Seq<Seq<char>>> {
    text::lines_v(text).map_values(|l: Seq<char>| text::words_v(l))
}

/// An edit that leaves each line's words as they are does not change the content hash: diffing `a`
/// against the edited text hashes as diffing it against `b`, on either side.
pub proof fn law_whitespace_edit_keeps_hash(
    path: Seq<char>,
    a: Seq<char>,
    b: Seq<char>,
    edited: Seq<char>,
)
    requires
        line_words_v(edited) == line_words_v(b),
    ensures
        content_hash_v(path, a, edited) == content_hash_v(path, a, b),
        content_hash_v(path, edited, a) == content_hash_v(path, b, a),
{
    lemma_same_words(edited, b);
}

// ---- The display diff ----

/// The line that shows a change, with the text that it shows.
pub open spec fn shown_line_v(c: ChangeV, content: Seq<char>) -> LineV {
    match c.tag {
        Tag::Equal => LineV::Context {
            old_lineno: c.old_index->0 + 1,
            new_lineno: c.new_index->0 + 1,
            content,
        },
        Tag::Delete => LineV::Removed { old_lineno: c.old_index->0 + 1, content },
        Tag::Insert => LineV::Added { new_lineno: c.new_index->0 + 1, content },
    }
}

/// The line that shows a change of the raw diff: its own text without the terminator.
pub open spec fn raw_line_v(c: ChangeV) -> LineV {
    shown_line_v(c, text::trim_eol_v(c.value))
}

/// The line that shows a change of the whitespace-insensitive diff: the original text at its index,
/// the new side's where it stands on both.
pub open spec fn ws_line_v(
    c: ChangeV,
    old_lines: Seq<Seq<char>>,
    new_lines: Seq<Seq<char>>,
) -> LineV {
    shown_line_v(
        c,
        if c.tag == Tag::Delete {
            old_lines[c.old_index->0]
        } else {
            new_lines[c.new_index->0]
        },
    )
}

/// Every line of the diff of two texts.
pub open spec fn diff_lines_v(old: Seq<char>, new: Seq<char>, ignore_ws: bool) -> Seq<LineV> {
    if ignore_ws {
        let a = text::lines_v(old);
        let b = text::lines_v(new);
        changes::slice_changes_v(normalized_v(a), normalized_v(b)).map_values(
            |c: ChangeV| ws_line_v(c, a, b),
        )
    } else {
        changes::line_changes_v(old, new).map_values(|c: ChangeV| raw_line_v(c))
    }
}

/// The diff of two texts with its hunks.
pub open spec fn build_file_diff_v(
    old: Seq<char>,
    new: Seq<char>,
    context: nat,
    ignore_ws: bool,
) -> FileDiffV {
    let lines = diff_lines_v(old, new, ignore_ws);
    FileDiffV { lines, hunks: hunks_v(lines, context) }
}

/// What the lines show of the old side.
pub open spec fn old_contents(lines: Seq<LineV>) -> Seq<Seq<char>>
    decreases lines.len(),
{
    if lines.len() == 0 {
        Seq::empty()
    } else if lines.last() is Added {
        old_contents(lines.drop_last())
    } else {
        old_contents(lines.drop_last()).push(lines.last().content())
    }
}

/// What the lines show of the new side.
pub open spec fn new_contents(lines: Seq<LineV>) -> Seq<Seq<char>>
    decreases lines.len(),
{
    if lines.len() == 0 {
        Seq::empty()
    } else if lines.last() is Removed {
        new_contents(lines.drop_last())
    } else {
        new_contents(lines.drop_last()).push(lines.last().content())
    }
}

/// The line at `k` carries the number that its place on each side gives it, counted from one.
pub open spec fn line_placed(lines: Seq<LineV>, k: int) -> bool {
    &&& lines[k].old_lineno() == (if lines[k] is Added {
        None
    } else {
        Some(old_contents(lines.take(k)).len() as int + 1)
    })
    &&& lines[k].new_lineno() == (if lines[k] is Removed {
        None
    } else {
        Some(new_contents(lines.take(k)).len() as int + 1)
    })
}

/// Each side's lines are numbered from one, in order.
pub open spec fn lines_numbered(lines: Seq<LineV>) -> bool {
    forall|k: int| 0 <= k < lines.len() ==> #[trigger] line_placed(lines, k)
}

/// Texts without their line terminators.
pub open spec fn trimmed_v(tokens: Seq<Seq<char>>) -> Seq<Seq<char>> {
    tokens.map_values(|t: Seq<char>| text::trim_eol_v(t))
}

/// Does every carriage return stand before a newline, or at the end of the text?
pub open spec fn returns_end_lines(s: Seq<char>) -> bool {
    forall|i: int| 0 <= i < s.len() - 1 && #[trigger] s[i] == '\r' ==> s[i + 1] == '\n'
}

/// Where carriage returns only end lines, the first line ends behind the first newline.
proof fn lemma_line_end(s: Seq<char>)
    requires
        returns_end_lines(s),
    ensures
        changes::line_end_v(s) == (if text::find_char_v(s, '\n') < s.len() {
            text::find_char_v(s, '\n') + 1
        } else {
            s.len() as int
        }),
    decreases s.len(),
{
    reveal_with_fuel(text::find_char_v, 3);
    if s.len() > 0 && s[0] != '\n' {
        let t = s.drop_first();
        if s[0] == '\r' {
            if s.len() > 1 {
                assert(s[1] == '\n');
                assert(t[0] == '\n');
            } else {
                assert(t.len() == 0);
            }
        } else {
            assert forall|i: int| 0 <= i < t.len() - 1 && #[trigger] t[i] == '\r' implies t[i + 1]
                == '\n' by {
                assert(s[i + 1] == '\r');
            }
            lemma_line_end(t);
        }
    }
}

/// Where carriage returns only end lines, the tokens without their terminators are the lines.
proof fn lemma_tokens_are_lines(s: Seq<char>)
    requires
        returns_end_lines(s),
    ensures
        trimmed_v(changes::line_tokens_v(s)) == text::lines_v(s),
    decreases s.len(),
{
    let tokens = changes::line_tokens_v(s);
    if s.len() == 0 {
        assert(trimmed_v(tokens) =~= text::lines_v(s));
    } else {
        lemma_line_end(s);
        text::lemma_find_char(s, '\n');
        let f = text::find_char_v(s, '\n');
        let k = changes::line_end_v(s);
        let rest = s.skip(k);
        assert forall|i: int| 0 <= i < rest.len() - 1 && #[trigger] rest[i] == '\r' implies rest[i
            + 1] == '\n' by {
            assert(s[k + i] == '\r');
            assert(s[k + i + 1] == '\n');
        }
        lemma_tokens_are_lines(rest);
        assert(trimmed_v(tokens) =~= seq![text::trim_eol_v(s.take(k))] + trimmed_v(
            changes::line_tokens_v(rest),
        ));
        if f < s.len() {
            assert(s.take(k).drop_last() =~= s.take(f));
            assert(s.take(k).last() == '\n');
        } else {
            assert(s.take(k) =~= s);
            assert(s.last() != '\n');
            assert(rest =~= Seq::empty());
        }
        assert(trimmed_v(tokens) =~= text::lines_v(s));
    }
}

/// The lines shown for numbered changes are numbered, and show what the changes hold.
proof fn lemma_raw_lines(cs: Seq<ChangeV>)
    requires
        changes::numbered(cs),
    ensures
        lines_numbered(cs.map_values(|c: ChangeV| raw_line_v(c))),
        old_contents(cs.map_values(|c: ChangeV| raw_line_v(c))) == trimmed_v(
            changes::old_values(cs),
        ),
        new_contents(cs.map_values(|c: ChangeV| raw_line_v(c))) == trimmed_v(
            changes::new_values(cs),
        ),
{
    let lines = cs.map_values(|c: ChangeV| raw_line_v(c));
    lemma_contents_take(cs, cs.len() as int);
    assert(lines.take(cs.len() as int) =~= lines);
    assert(cs.take(cs.len() as int) =~= cs);
    assert forall|k: int| 0 <= k < lines.len() implies #[trigger] line_placed(lines, k) by {
        lemma_contents_take(cs, k);
        assert(changes::placed(cs, k));
        assert(lines[k] == raw_line_v(cs[k]));
    }
}

proof fn lemma_contents_take(cs: Seq<ChangeV>, k: int)
    requires
        0 <= k <= cs.len(),
    ensures
        old_contents(cs.map_values(|c: ChangeV| raw_line_v(c)).take(k)) == trimmed_v(
            changes::old_values(cs.take(k)),
        ),
        new_contents(cs.map_values(|c: ChangeV| raw_line_v(c)).take(k)) == trimmed_v(
            changes::new_values(cs.take(k)),
        ),
    decreases k,
{
    let lines = cs.map_values(|c: ChangeV| raw_line_v(c));
    if k > 0 {
        lemma_contents_take(cs, k - 1);
        assert(lines.take(k).drop_last() =~= lines.take(k - 1));
        assert(cs.take(k).drop_last() =~= cs.take(k - 1));
        assert(lines.take(k).last() == raw_line_v(cs[k - 1]));
        assert(old_contents(lines.take(k)) =~= trimmed_v(changes::old_values(cs.take(k))));
        assert(new_contents(lines.take(k)) =~= trimmed_v(changes::new_values(cs.take(k))));
    } else {
        assert(lines.take(0) =~= Seq::empty());
        assert(cs.take(0) =~= Seq::empty());
        assert(trimmed_v(Seq::empty()) =~= Seq::empty());
    }
}

/// Every line that stands at its index in the whitespace-insensitive diff shows its original text.
proof fn lemma_ws_take(cs: Seq<ChangeV>, a: Seq<Seq<char>>, b: Seq<Seq<char>>, k: int)
    requires
        0 <= k <= cs.len(),
        changes::numbered(cs),
        changes::old_values(cs) == normalized_v(a),
        changes::new_values(cs) == normalized_v(b),
    ensures
        normalized_v(old_contents(cs.map_values(|c: ChangeV| ws_line_v(c, a, b)).take(k)))
            == normalized_v(a).take(changes::old_values(cs.take(k)).len() as int),
        old_contents(cs.map_values(|c: ChangeV| ws_line_v(c, a, b)).take(k)).len()
            == changes::old_values(cs.take(k)).len(),
        new_contents(cs.map_values(|c: ChangeV| ws_line_v(c, a, b)).take(k)) == b.take(
            changes::new_values(cs.take(k)).len() as int,
        ),
        changes::old_values(cs.take(k)).len() <= a.len(),
        changes::new_values(cs.take(k)).len() <= b.len(),
    decreases k,
{
    let lines = cs.map_values(|c: ChangeV| ws_line_v(c, a, b));
    assert(normalized_v(a).len() == a.len());
    assert(normalized_v(b).len() == b.len());
    changes::lemma_side_lens(cs, k);
    if k > 0 {
        lemma_ws_take(cs, a, b, k - 1);
        changes::lemma_side_lens(cs, k - 1);
        assert(lines.take(k).drop_last() =~= lines.take(k - 1));
        assert(cs.take(k).drop_last() =~= cs.take(k - 1));
        let c = cs[k - 1];
        assert(lines.take(k).last() == ws_line_v(c, a, b));
        assert(changes::placed(cs, k - 1));
        let o = old_contents(lines.take(k - 1));
        let i = changes::old_values(cs.take(k - 1)).len() as int;
        let j = changes::new_values(cs.take(k - 1)).len() as int;
        if c.tag != Tag::Insert {
            let shown = lines.take(k).last().content();
            assert(normalized_v(a)[i] == c.value);
            assert(normalized_v(o.push(shown)) =~= normalized_v(o).push(text::normalize_v(shown)));
            if c.tag == Tag::Equal {
                assert(normalized_v(b)[j] == c.value);
                assert(normalized_v(b)[j] == text::normalize_v(b[j]));
            } else {
                assert(normalized_v(a)[i] == text::normalize_v(a[i]));
            }
            assert(normalized_v(a).take(i + 1) =~= normalized_v(a).take(i).push(c.value));
        }
        if c.tag != Tag::Delete {
            assert(b.take(j + 1) =~= b.take(j).push(b[j]));
        }
    } else {
        assert(lines.take(0) =~= Seq::empty());
        assert(cs.take(0) =~= Seq::empty());
        assert(normalized_v(Seq::empty()) =~= Seq::empty());
        assert(normalized_v(a).take(0) =~= Seq::empty());
        assert(b.take(0) =~= Seq::empty());
    }
}

/// The lines of the whitespace-insensitive diff are numbered, show the new side's lines, and show
/// the old side's up to whitespace.
proof fn lemma_ws_lines(cs: Seq<ChangeV>, a: Seq<Seq<char>>, b: Seq<Seq<char>>)
    requires
        changes::numbered(cs),
        changes::old_values(cs) == normalized_v(a),
        changes::new_values(cs) == normalized_v(b),
    ensures
        lines_numbered(cs.map_values(|c: ChangeV| ws_line_v(c, a, b))),
        new_contents(cs.map_values(|c: ChangeV| ws_line_v(c, a, b))) == b,
        normalized_v(old_contents(cs.map_values(|c: ChangeV| ws_line_v(c, a, b)))) == normalized_v(
            a,
        ),
{
    let lines = cs.map_values(|c: ChangeV| ws_line_v(c, a, b));
    lemma_ws_take(cs, a, b, cs.len() as int);
    assert(lines.take(cs.len() as int) =~= lines);
    assert(cs.take(cs.len() as int) =~= cs);
    assert(normalized_v(a).len() == a.len());
    assert(normalized_v(b).len() == b.len());
    assert(b.take(b.len() as int) =~= b);
    assert(normalized_v(a).take(a.len() as int) =~= normalized_v(a));
    assert forall|k: int| 0 <= k < lines.len() implies #[trigger] line_placed(lines, k) by {
        assert(changes::placed(cs, k));
        lemma_ws_take(cs, a, b, k);
        changes::lemma_side_lens(cs, k);
    }
}

/// How many lines are added.
pub open spec fn added_v(lines: Seq<LineV>) -> nat
    decreases lines.len(),
{
    if lines.len() == 0 {
        0
    } else {
        added_v(lines.drop_last()) + if lines.last() is Added {
            1nat
        } else {
            0
        }
    }
}

/// How many lines are removed.
pub open spec fn removed_v(lines: Seq<LineV>) -> nat
    decreases lines.len(),
{
    if lines.len() == 0 {
        0
    } else {
        removed_v(lines.drop_last()) + if lines.last() is Removed {
            1nat
        } else {
            0
        }
    }
}

proof fn lemma_counts(cs: Seq<ChangeV>)
    ensures
        added_v(cs.map_values(|c: ChangeV| raw_line_v(c))) == count_tag(cs, Tag::Insert),
        removed_v(cs.map_values(|c: ChangeV| raw_line_v(c))) == count_tag(cs, Tag::Delete),
    decreases cs.len(),
{
    let lines = cs.map_values(|c: ChangeV| raw_line_v(c));
    if cs.len() > 0 {
        lemma_counts(cs.drop_last());
        assert(lines.drop_last() =~= cs.drop_last().map_values(|c: ChangeV| raw_line_v(c)));
        assert(lines.last() == raw_line_v(cs.last()));
    }
}

/// The raw diff of two texts shows as many added and removed lines as the counts of the two say.
pub proof fn law_diff_shows_its_counts(old: Seq<char>, new: Seq<char>, context: nat)
    ensures
        added_v(build_file_diff_v(old, new, context, false).lines) == count_tag(
            changes::line_changes_v(old, new),
            Tag::Insert,
        ),
        removed_v(build_file_diff_v(old, new, context, false).lines) == count_tag(
            changes::line_changes_v(old, new),
            Tag::Delete,
        ),
{
    lemma_counts(changes::line_changes_v(old, new));
}

/// Where nothing is changed there is no hunk.
pub proof fn law_no_change_no_hunk(lines: Seq<LineV>, context: nat)
    requires
        forall|k: int| 0 <= k < lines.len() ==> !(#[trigger] lines[k]).is_change(),
    ensures
        hunks_v(lines, context).len() == 0,
{
    law_hunks_are_maximal_runs(lines, context);
    let hs = hunks_v(lines, context);
    if hs.len() > 0 {
        let j = hs[0].start;
        assert(in_hunk(hs[0], j));
        assert(near(lines, context, j));
    }
}

/// Texts whose lines have the same words have the same lines when normalized.
proof fn lemma_same_words(a: Seq<char>, b: Seq<char>)
    requires
        line_words_v(a) == line_words_v(b),
    ensures
        normalized_v(text::lines_v(a)) == normalized_v(text::lines_v(b)),
{
    let x = text::lines_v(a);
    let y = text::lines_v(b);
    assert(line_words_v(a).len() == x.len());
    assert(line_words_v(b).len() == y.len());
    assert forall|i: int| 0 <= i < x.len() implies normalized_v(x)[i] == normalized_v(y)[i] by {
        assert(line_words_v(a)[i] == text::words_v(x[i]));
        assert(line_words_v(b)[i] == text::words_v(y[i]));
    }
    assert(normalized_v(x) =~= normalized_v(y));
}

/// The full diff of a file: every line, and the hunks (clusters of changes) with `context` lines
/// round each change.
///
/// With `ignore_ws` the lines are compared by their words, so that whitespace-only edits read as
/// unchanged, and texts whose lines have the same words have no hunk; what is shown is still the
/// original text.
///
/// Each side's lines are numbered from one. The new side's lines, in order, are what the diff
/// shows of it; so are the old side's, up to whitespace with `ignore_ws`. (The raw diff also cuts
/// a line behind a carriage return that no newline follows, so there the texts are those in which
/// carriage returns only end lines.)
pub fn build_file_diff(old: &str, new: &str, context: usize, ignore_ws: bool) -> (r: FileDiff)
    ensures
        r.deep_view() == build_file_diff_v(old@, new@, context as nat, ignore_ws),
        lines_numbered(r.deep_view().lines),
        !ignore_ws && returns_end_lines(old@) ==> old_contents(r.deep_view().lines)
            == text::lines_v(old@),
        !ignore_ws && returns_end_lines(new@) ==> new_contents(r.deep_view().lines)
            == text::lines_v(new@),
        ignore_ws ==> new_contents(r.deep_view().lines) == text::lines_v(new@),
        ignore_ws ==> normalized_v(old_contents(r.deep_view().lines)) == normalized_v(
            text::lines_v(old@),
        ),
        ignore_ws && line_words_v(old@) == line_words_v(new@) ==> r.deep_view().hunks.len() == 0,
        forall|k: int|
            0 <= k < r.deep_view().hunks.len() ==> headed(
                r.deep_view().lines,
                #[trigger] r.deep_view().hunks[k],
            ),
{
    if ignore_ws {
        let old_lines = lines(old);
        let new_lines = lines(new);
        let old_norm = normalized(&old_lines);
        let new_norm = normalized(&new_lines);
        let changes = slice_changes(&old_norm, &new_norm);
        proof {
            lemma_ws_lines(changes.deep_view(), text::lines_v(old@), text::lines_v(new@));
            assert(normalized_v(text::lines_v(old@)).len() == text::lines_v(old@).len());
            assert(normalized_v(text::lines_v(new@)).len() == text::lines_v(new@).len());
            lemma_hunks_headed(diff_lines_v(old@, new@, true), context as nat, 0);
            if line_words_v(old@) == line_words_v(new@) {
                lemma_same_words(old@, new@);
                law_no_change_no_hunk(diff_lines_v(old@, new@, true), context as nat);
            }
        }
        ws_diff(&changes, &old_lines, &new_lines, context)
    } else {
        let changes = line_changes(old, new);
        proof {
            lemma_raw_lines(changes.deep_view());
            lemma_hunks_headed(diff_lines_v(old@, new@, false), context as nat, 0);
            if returns_end_lines(old@) {
                lemma_tokens_are_lines(old@);
            }
            if returns_end_lines(new@) {
                lemma_tokens_are_lines(new@);
            }
        }
        raw_diff(&changes, context)
    }
}

/// The diff that shows the changes of the raw line diff.
pub fn raw_diff(changes: &Vec<Change>, context: usize) -> (r: FileDiff)
    requires
        changes::numbered(changes.deep_view()),
    ensures
        r.deep_view().lines == changes.deep_view().map_values(|c: ChangeV| raw_line_v(c)),
        r.deep_view().hunks == hunks_v(r.deep_view().lines, context as nat),
{
    let ghost cs = changes.deep_view();
    let ghost want = cs.map_values(|c: ChangeV| raw_line_v(c));
    let mut out: Vec<DiffLine> = Vec::new();
    let mut i: usize = 0;
    while i < changes.len()
        invariant
            i <= changes@.len(),
            cs == changes.deep_view(),
            want == cs.map_values(|c: ChangeV| raw_line_v(c)),
            changes::numbered(cs),
            out.deep_view() =~= want.take(i as int),
        decreases changes@.len() - i,
    {
        let ghost before = out.deep_view();
        let c = &changes[i];
        assert(cs[i as int] == c.deep_view());
        assert(changes::placed(cs, i as int));
        proof {
            changes::lemma_side_lens(cs, i as int);
        }
        let content = trim_eol(c.value.as_str());
        let line = build_line(c.tag, c.old_index, c.new_index, content);
        out.push(line);
        assert(out.deep_view() =~= before.push(raw_line_v(cs[i as int])));
        i = i + 1;
    }
    assert(out.deep_view() =~= want);
    let hunks = compute_hunks(&out, context);
    FileDiff { lines: out, hunks }
}

/// The diff that shows the changes of the whitespace-insensitive line diff.
pub fn ws_diff(
    changes: &Vec<Change>,
    old_lines: &Vec<String>,
    new_lines: &Vec<String>,
    context: usize,
) -> (r: FileDiff)
    requires
        changes::numbered(changes.deep_view()),
        changes::old_values(changes.deep_view()).len() <= old_lines@.len(),
        changes::new_values(changes.deep_view()).len() <= new_lines@.len(),
    ensures
        r.deep_view().lines == changes.deep_view().map_values(
            |c: ChangeV| ws_line_v(c, old_lines.deep_view(), new_lines.deep_view()),
        ),
        r.deep_view().hunks == hunks_v(r.deep_view().lines, context as nat),
{
    let ghost cs = changes.deep_view();
    let ghost a = old_lines.deep_view();
    let ghost b = new_lines.deep_view();
    let ghost want = cs.map_values(|c: ChangeV| ws_line_v(c, a, b));
    let mut out: Vec<DiffLine> = Vec::new();
    let mut i: usize = 0;
    while i < changes.len()
        invariant
            i <= changes@.len(),
            cs == changes.deep_view(),
            a == old_lines.deep_view(),
            b == new_lines.deep_view(),
            want == cs.map_values(|c: ChangeV| ws_line_v(c, a, b)),
            changes::numbered(cs),
            changes::old_values(cs).len() <= old_lines@.len(),
            changes::new_values(cs).len() <= new_lines@.len(),
            out.deep_view() =~= want.take(i as int),
        decreases changes@.len() - i,
    {
        let ghost before = out.deep_view();
        let c = &changes[i];
        assert(cs[i as int] == c.deep_view());
        assert(changes::placed(cs, i as int));
        proof {
            changes::lemma_side_lens(cs, i as int);
        }
        let content: String = match c.tag {
            Tag::Delete => match c.old_index {
                Some(k) => {
                    assert(a[k as int] == old_lines@[k as int]@);
                    old_lines[k].clone()
                },
                None => String::new(),
            },
            _ => match c.new_index {
                Some(k) => {
                    assert(b[k as int] == new_lines@[k as int]@);
                    new_lines[k].clone()
                },
                None => String::new(),
            },
        };
        let line = build_line(c.tag, c.old_index, c.new_index, content);
        out.push(line);
        assert(out.deep_view() =~= before.push(ws_line_v(cs[i as int], a, b)));
        i = i + 1;
    }
    assert(out.deep_view() =~= want);
    let hunks = compute_hunks(&out, context);
    FileDiff { lines: out, hunks }
}

/// The line that shows a change.
fn build_line(
    tag: Tag,
    old_index: Option<usize>,
    new_index: Option<usize>,
    content: String,
) -> (r: DiffLine)
    requires
        tag != Tag::Insert ==> old_index is Some && old_index->0 < usize::MAX,
        tag != Tag::Delete ==> new_index is Some && new_index->0 < usize::MAX,
    ensures
        r.deep_view() == shown_line_v(
            (ChangeV {
                tag,
                old_index: changes::opt_int(old_index),
                new_index: changes::opt_int(new_index),
                value: content@,
            }),
            content@,
        ),
{
    match tag {
        Tag::Equal => DiffLine::Context {
            old_lineno: old_index.unwrap() + 1,
            new_lineno: new_index.unwrap() + 1,
            content,
        },
        Tag::Delete => DiffLine::Removed { old_lineno: old_index.unwrap() + 1, content },
        Tag::Insert => DiffLine::Added { new_lineno: new_index.unwrap() + 1, content },
    }
}

// ---- Hunks ----

/// Is the line at `i` within `context` lines of a change?
pub open spec fn near(lines: Seq<LineV>, context: nat, i: int) -> bool {
    exists|j: int|
        0 <= j < lines.len() && (#[trigger] lines[j]).is_change() && i - context <= j <= i + context
}

/// The end of the run of near lines that starts at `i`.
pub open spec fn run_end(lines: Seq<LineV>, context: nat, i: int) -> int
    decreases lines.len() - i,
{
    if 0 <= i < lines.len() && near(lines, context, i) {
        run_end(lines, context, i + 1)
    } else {
        i
    }
}

/// A run ends at or after its start, covers near lines only, and ends at the end or at a line that
/// is not near.
pub proof fn lemma_run_end(lines: Seq<LineV>, context: nat, i: int)
    requires
        0 <= i <= lines.len(),
    ensures
        i <= run_end(lines, context, i) <= lines.len(),
        i < lines.len() && near(lines, context, i) ==> i < run_end(lines, context, i),
        forall|j: int|
            i <= j < run_end(lines, context, i) ==> #[trigger] near(lines, context, j),
        run_end(lines, context, i) < lines.len() ==> !near(
            lines,
            context,
            run_end(lines, context, i),
        ),
    decreases lines.len() - i,
{
    if i < lines.len() && near(lines, context, i) {
        lemma_run_end(lines, context, i + 1);
    }
}

/// The first line number on the old side among the lines from `i` to `end`, or zero.
pub open spec fn first_old_v(lines: Seq<LineV>, i: int, end: int) -> int
    decreases end - i,
{
    if i >= end {
        0
    } else {
        match lines[i].old_lineno() {
            Some(n) => n,
            None => first_old_v(lines, i + 1, end),
        }
    }
}

/// The first line number on the new side among the lines from `i` to `end`, or zero.
pub open spec fn first_new_v(lines: Seq<LineV>, i: int, end: int) -> int
    decreases end - i,
{
    if i >= end {
        0
    } else {
        match lines[i].new_lineno() {
            Some(n) => n,
            None => first_new_v(lines, i + 1, end),
        }
    }
}

/// How many of the lines from `i` to `end` stand on the old side.
pub open spec fn count_old_v(lines: Seq<LineV>, i: int, end: int) -> int
    decreases end - i,
{
    if i >= end {
        0
    } else {
        count_old_v(lines, i + 1, end) + (if lines[i] is Added {
            0int
        } else {
            1int
        })
    }
}

/// How many of the lines from `i` to `end` stand on the new side.
pub open spec fn count_new_v(lines: Seq<LineV>, i: int, end: int) -> int
    decreases end - i,
{
    if i >= end {
        0
    } else {
        count_new_v(lines, i + 1, end) + (if lines[i] is Removed {
            0int
        } else {
            1int
        })
    }
}

/// The hunk that covers the lines from `start` to `end`.
pub open spec fn hunk_v(lines: Seq<LineV>, start: int, end: int) -> HunkV {
    HunkV {
        old_start: first_old_v(lines, start, end),
        old_lines: count_old_v(lines, start, end),
        new_start: first_new_v(lines, start, end),
        new_lines: count_new_v(lines, start, end),
        function_context: None,
        start,
        end,
    }
}

/// The hunks at or after line `i`: one for each maximal run of near lines.
pub open spec fn hunks_from(lines: Seq<LineV>, context: nat, i: int) -> Seq<HunkV>
    decreases lines.len() - i,
{
    if i < 0 || i >= lines.len() {
        Seq::empty()
    } else if !near(lines, context, i) {
        hunks_from(lines, context, i + 1)
    } else {
        proof {
            lemma_run_end(lines, context, i);
        }
        let e = run_end(lines, context, i);
        seq![hunk_v(lines, i, e)] + hunks_from(lines, context, e)
    }
}

/// The hunks of a diff: one for each maximal run of lines within `context` lines of a change.
pub open spec fn hunks_v(lines: Seq<LineV>, context: nat) -> Seq<HunkV> {
    hunks_from(lines, context, 0)
}

/// The hunk that covers the lines from `start` to `end`.
fn build_hunk(lines: &Vec<DiffLine>, start: usize, end: usize) -> (r: Hunk)
    requires
        start <= end <= lines@.len(),
    ensures
        r.deep_view() == hunk_v(lines.deep_view(), start as int, end as int),
{
    let ghost ls = lines.deep_view();
    let mut old_start: usize = 0;
    let mut new_start: usize = 0;
    let mut old_lines: usize = 0;
    let mut new_lines: usize = 0;
    let mut i: usize = end;
    while i > start
        invariant
            start <= i <= end <= lines@.len(),
            ls == lines.deep_view(),
            old_start == first_old_v(ls, i as int, end as int),
            new_start == first_new_v(ls, i as int, end as int),
            old_lines == count_old_v(ls, i as int, end as int),
            new_lines == count_new_v(ls, i as int, end as int),
            old_lines <= end - i,
            new_lines <= end - i,
        decreases i,
    {
        i = i - 1;
        assert(ls[i as int] == lines@[i as int].deep_view());
        if let Some(n) = lines[i].old_lineno() {
            old_start = n;
            old_lines = old_lines + 1;
        }
        if let Some(n) = lines[i].new_lineno() {
            new_start = n;
            new_lines = new_lines + 1;
        }
    }
    Hunk {
        old_start,
        old_lines,
        new_start,
        new_lines,
        function_context: None,
        line_range: std::ops::Range { start, end },
    }
}

/// Which lines lie within `context` lines of a change.
fn visible_lines(lines: &Vec<DiffLine>, context: usize) -> (visible: Vec<bool>)
    ensures
        visible@.len() == lines@.len(),
        forall|i: int|
            0 <= i < lines@.len() ==> #[trigger] visible@[i] == near(
                lines.deep_view(),
                context as nat,
                i,
            ),
{
    let ghost ls = lines.deep_view();
    let n: usize = lines.len();
    let mut visible: Vec<bool> = vec![false; n];
    let mut i: usize = 0;
    while i < n
        invariant
            i <= n == lines@.len() == visible@.len() == ls.len(),
            ls == lines.deep_view(),
            forall|k: int|
                0 <= k < n ==> #[trigger] visible@[k] == (exists|j: int|
                    0 <= j < i && (#[trigger] ls[j]).is_change() && k - context <= j <= k
                        + context),
        decreases n - i,
    {
        let ghost before = visible@;
        assert(ls[i as int] == lines@[i as int].deep_view());
        if lines[i].is_change() {
            let lo: usize = i.saturating_sub(context);
            let hi: usize = if context < n - i {
                i + context + 1
            } else {
                n
            };
            let mut j: usize = lo;
            while j < hi
                invariant
                    lo <= j <= hi <= n == visible@.len() == before.len(),
                    forall|k: int|
                        0 <= k < n ==> #[trigger] visible@[k] == (before[k] || lo <= k < j),
                decreases hi - j,
            {
                visible.set(j, true);
                j = j + 1;
            }
            assert forall|k: int| 0 <= k < n implies #[trigger] visible@[k] == (exists|j: int|
                0 <= j < i + 1 && (#[trigger] ls[j]).is_change() && k - context <= j <= k
                    + context) by {
                if lo <= k < hi {
                    assert(ls[i as int].is_change() && k - context <= i <= k + context);
                }
                if before[k] {
                    let j = choose|j: int|
                        0 <= j < i && (#[trigger] ls[j]).is_change() && k - context <= j <= k
                            + context;
                    assert(ls[j].is_change());
                }
            }
        } else {
            assert forall|k: int| 0 <= k < n implies #[trigger] visible@[k] == (exists|j: int|
                0 <= j < i + 1 && (#[trigger] ls[j]).is_change() && k - context <= j <= k
                    + context) by {
                if before[k] {
                    let j = choose|j: int|
                        0 <= j < i && (#[trigger] ls[j]).is_change() && k - context <= j <= k
                            + context;
                    assert(ls[j].is_change());
                }
            }
        }
        i = i + 1;
    }
    visible
}

/// The hunks of a line sequence: each is a maximal run of lines within `context` lines of some
/// change.
pub fn compute_hunks(lines: &Vec<DiffLine>, context: usize) -> (r: Vec<Hunk>)
    ensures
        r.deep_view() == hunks_v(lines.deep_view(), context as nat),
{
    let ghost ls = lines.deep_view();
    let n: usize = lines.len();
    let visible = visible_lines(lines, context);
    let mut hunks: Vec<Hunk> = Vec::new();
    let mut i: usize = 0;
    while i < n
        invariant
            i <= n == lines@.len() == visible@.len() == ls.len(),
            ls == lines.deep_view(),
            forall|k: int|
                0 <= k < n ==> #[trigger] visible@[k] == near(ls, context as nat, k),
            hunks_v(ls, context as nat) =~= hunks.deep_view() + hunks_from(
                ls,
                context as nat,
                i as int,
            ),
        decreases n - i,
    {
        if !visible[i] {
            i = i + 1;
            continue ;
        }
        let start: usize = i;
        while i < n && visible[i]
            invariant
                start <= i <= n == visible@.len() == ls.len(),
                forall|k: int|
                    0 <= k < n ==> #[trigger] visible@[k] == near(ls, context as nat, k),
                run_end(ls, context as nat, start as int) == run_end(
                    ls,
                    context as nat,
                    i as int,
                ),
            decreases n - i,
        {
            i = i + 1;
        }
        let ghost before = hunks.deep_view();
        let h = build_hunk(lines, start, i);
        hunks.push(h);
        assert(hunks.deep_view() =~= before.push(h.deep_view()));
    }
    hunks
}

/// A line lies in a hunk.
pub open spec fn in_hunk(h: HunkV, i: int) -> bool {
    h.start <= i < h.end
}

proof fn lemma_hunks_from(lines: Seq<LineV>, context: nat, i: int)
    requires
        0 <= i <= lines.len(),
        i > 0 ==> !near(lines, context, i - 1) || i == lines.len() || !near(lines, context, i),
    ensures
        ({
            let hs = hunks_from(lines, context, i);
            &&& forall|k: int|
                0 <= k < hs.len() ==> i <= (#[trigger] hs[k]).start < hs[k].end <= lines.len()
            &&& forall|k: int, l: int|
                0 <= k < l < hs.len() ==> (#[trigger] hs[k]).end < (#[trigger] hs[l]).start
            &&& forall|j: int|
                i <= j < lines.len() ==> (#[trigger] near(lines, context, j) <==> exists|k: int|
                    0 <= k < hs.len() && #[trigger] in_hunk(hs[k], j))
        }),
    decreases lines.len() - i,
{
    let hs = hunks_from(lines, context, i);
    if i < lines.len() {
        if !near(lines, context, i) {
            lemma_hunks_from(lines, context, i + 1);
            assert forall|j: int| i <= j < lines.len() implies (#[trigger] near(lines, context, j)
                <==> exists|k: int| 0 <= k < hs.len() && #[trigger] in_hunk(hs[k], j)) by {
                if j == i {
                    assert forall|k: int| 0 <= k < hs.len() implies !#[trigger] in_hunk(
                        hs[k],
                        j,
                    ) by {
                        assert(hs[k].start >= i + 1);
                    }
                }
            }
        } else {
            lemma_run_end(lines, context, i);
            let e = run_end(lines, context, i);
            lemma_hunks_from(lines, context, e);
            let rest = hunks_from(lines, context, e);
            assert(hs =~= seq![hunk_v(lines, i, e)] + rest);
            assert forall|k: int| 0 <= k < rest.len() implies #[trigger] hs[k + 1] == rest[k] by {}
            assert forall|k: int| 0 < k < hs.len() implies #[trigger] hs[k] == rest[k - 1] by {}
            assert forall|k: int| 0 <= k < rest.len() implies e < (#[trigger] rest[k]).start by {
                if rest[k].start == e {
                    assert(in_hunk(rest[k], e));
                    assert(near(lines, context, e));
                }
            }
            assert forall|j: int| i <= j < lines.len() implies (#[trigger] near(lines, context, j)
                <==> exists|k: int| 0 <= k < hs.len() && #[trigger] in_hunk(hs[k], j)) by {
                if j < e {
                    assert(in_hunk(hs[0], j));
                } else {
                    if near(lines, context, j) {
                        let k = choose|k: int| 0 <= k < rest.len() && #[trigger] in_hunk(rest[k], j);
                        assert(in_hunk(hs[k + 1], j));
                    }
                    if exists|k: int| 0 <= k < hs.len() && #[trigger] in_hunk(hs[k], j) {
                        let k = choose|k: int| 0 <= k < hs.len() && #[trigger] in_hunk(hs[k], j);
                        assert(k > 0);
                        assert(in_hunk(rest[k - 1], j));
                    }
                }
            }
        }
    }
}

/// The hunks of a diff lie within it and are not empty; two hunks do not touch; and a line is in a
/// hunk exactly where it is within `context` lines of a change. So every change is in a hunk, and
/// each hunk is a maximal run.
pub proof fn law_hunks_are_maximal_runs(lines: Seq<LineV>, context: nat)
    ensures
        ({
            let hs = hunks_v(lines, context);
            &&& forall|k: int|
                0 <= k < hs.len() ==> 0 <= (#[trigger] hs[k]).start < hs[k].end <= lines.len()
            &&& forall|k: int, l: int|
                0 <= k < l < hs.len() ==> (#[trigger] hs[k]).end < (#[trigger] hs[l]).start
            &&& forall|j: int|
                0 <= j < lines.len() ==> (#[trigger] near(lines, context, j) <==> exists|k: int|
                    0 <= k < hs.len() && #[trigger] in_hunk(hs[k], j))
            &&& forall|j: int|
                0 <= j < lines.len() && (#[trigger] lines[j]).is_change() ==> exists|k: int|
                    0 <= k < hs.len() && #[trigger] in_hunk(hs[k], j)
        }),
{
    lemma_hunks_from(lines, context, 0);
    let hs = hunks_v(lines, context);
    assert forall|j: int|
        0 <= j < lines.len() && (#[trigger] lines[j]).is_change() implies exists|k: int|
        0 <= k < hs.len() && #[trigger] in_hunk(hs[k], j) by {
        assert(near(lines, context, j));
    }
}

// ---- What a hunk's header says ----

/// What two runs of lines show of each side, they show one after the other.
proof fn lemma_contents_add(a: Seq<LineV>, b: Seq<LineV>)
    ensures
        old_contents(a + b) == old_contents(a) + old_contents(b),
        new_contents(a + b) == new_contents(a) + new_contents(b),
    decreases b.len(),
{
    if b.len() == 0 {
        assert(a + b =~= a);
    } else {
        lemma_contents_add(a, b.drop_last());
        assert((a + b).drop_last() =~= a + b.drop_last());
        assert((a + b).last() == b.last());
    }
    assert(old_contents(a + b) =~= old_contents(a) + old_contents(b));
    assert(new_contents(a + b) =~= new_contents(a) + new_contents(b));
}

/// What one line shows of each side.
proof fn lemma_contents_one(line: LineV)
    ensures
        old_contents(seq![line]).len() == (if line is Added {
            0nat
        } else {
            1nat
        }),
        new_contents(seq![line]).len() == (if line is Removed {
            0nat
        } else {
            1nat
        }),
{
    reveal_with_fuel(old_contents, 2);
    reveal_with_fuel(new_contents, 2);
    let one = seq![line];
    assert(one.drop_last() =~= Seq::empty());
    assert(one.last() == line);
}

/// The numbers of a hunk follow from the lines before it and in it.
proof fn lemma_hunk_sides(lines: Seq<LineV>, i: int, end: int)
    requires
        0 <= i <= end <= lines.len(),
        lines_numbered(lines),
    ensures
        count_old_v(lines, i, end) == old_contents(lines.subrange(i, end)).len(),
        count_new_v(lines, i, end) == new_contents(lines.subrange(i, end)).len(),
        first_old_v(lines, i, end) == (if count_old_v(lines, i, end) > 0 {
            old_contents(lines.take(i)).len() + 1
        } else {
            0
        }),
        first_new_v(lines, i, end) == (if count_new_v(lines, i, end) > 0 {
            new_contents(lines.take(i)).len() + 1
        } else {
            0
        }),
    decreases end - i,
{
    let here = lines.subrange(i, end);
    if i == end {
        assert(here =~= Seq::empty());
    } else {
        let one = seq![lines[i]];
        let rest = lines.subrange(i + 1, end);
        lemma_hunk_sides(lines, i + 1, end);
        lemma_contents_one(lines[i]);
        assert(here =~= one + rest);
        lemma_contents_add(one, rest);
        assert(lines.take(i + 1) =~= lines.take(i) + one);
        lemma_contents_add(lines.take(i), one);
        assert(line_placed(lines, i));
    }
}

/// Where a hunk of a diff lies on each side, by its header: the numbers count its lines of that
/// side, and start at the number of the first of them, or at zero where there is none.
pub open spec fn headed(lines: Seq<LineV>, h: HunkV) -> bool {
    let old_before = old_contents(lines.take(h.start)).len() as int;
    let new_before = new_contents(lines.take(h.start)).len() as int;
    let old_here = old_contents(lines.subrange(h.start, h.end));
    let new_here = new_contents(lines.subrange(h.start, h.end));
    &&& h.old_lines == old_here.len()
    &&& h.new_lines == new_here.len()
    &&& h.old_lines > 0 ==> h.old_start == old_before + 1
    &&& h.new_lines > 0 ==> h.new_start == new_before + 1
    &&& h.old_lines == 0 ==> h.old_start == 0
    &&& h.new_lines == 0 ==> h.new_start == 0
}

proof fn lemma_hunks_headed(lines: Seq<LineV>, context: nat, i: int)
    requires
        0 <= i <= lines.len(),
        lines_numbered(lines),
    ensures
        forall|k: int|
            0 <= k < hunks_from(lines, context, i).len() ==> headed(
                lines,
                #[trigger] hunks_from(lines, context, i)[k],
            ),
    decreases lines.len() - i,
{
    if i < lines.len() {
        if !near(lines, context, i) {
            lemma_hunks_headed(lines, context, i + 1);
            assert(hunks_from(lines, context, i) == hunks_from(lines, context, i + 1));
        } else {
            lemma_run_end(lines, context, i);
            let e = run_end(lines, context, i);
            lemma_hunk_sides(lines, i, e);
            lemma_hunks_headed(lines, context, e);
            let rest = hunks_from(lines, context, e);
            let all = hunks_from(lines, context, i);
            assert(all == seq![hunk_v(lines, i, e)] + rest);
            assert(headed(lines, hunk_v(lines, i, e)));
            assert forall|k: int| 0 <= k < all.len() implies headed(lines, #[trigger] all[k]) by {
                if k > 0 {
                    assert(all[k] == rest[k - 1]);
                }
            }
        }
    }
}

/// The header of each hunk says which lines of each side it shows: so many of them, from that
/// number on. What the hunk shows of a side is that stretch of the side.
pub proof fn law_hunk_headers(lines: Seq<LineV>, context: nat, k: int)
    requires
        lines_numbered(lines),
        0 <= k < hunks_v(lines, context).len(),
    ensures
        ({
            let h = hunks_v(lines, context)[k];
            let here = lines.subrange(h.start, h.end);
            &&& h.old_lines == old_contents(here).len()
            &&& h.new_lines == new_contents(here).len()
            &&& h.old_lines > 0 ==> h.old_start == old_contents(lines.take(h.start)).len() + 1
                && old_contents(here) == old_contents(lines).subrange(
                h.old_start - 1,
                h.old_start - 1 + h.old_lines,
            )
            &&& h.new_lines > 0 ==> h.new_start == new_contents(lines.take(h.start)).len() + 1
                && new_contents(here) == new_contents(lines).subrange(
                h.new_start - 1,
                h.new_start - 1 + h.new_lines,
            )
            &&& h.old_lines == 0 ==> h.old_start == 0
            &&& h.new_lines == 0 ==> h.new_start == 0
        }),
{
    let h = hunks_v(lines, context)[k];
    assert(headed(lines, h)) by {
        lemma_hunks_headed(lines, context, 0);
    }
    assert(0 <= h.start < h.end <= lines.len()) by {
        law_hunks_are_maximal_runs(lines, context);
    }
    lemma_stretch(lines, h.start, h.end);
}

/// What a stretch of lines shows of a side is a stretch of what all show of it.
proof fn lemma_stretch(lines: Seq<LineV>, i: int, end: int)
    requires
        0 <= i <= end <= lines.len(),
    ensures
        ({
            let a = old_contents(lines.take(i)).len() as int;
            let b = new_contents(lines.take(i)).len() as int;
            let here = lines.subrange(i, end);
            &&& old_contents(here) == old_contents(lines).subrange(a, a + old_contents(here).len())
            &&& new_contents(here) == new_contents(lines).subrange(b, b + new_contents(here).len())
        }),
{
    let before = lines.take(i);
    let here = lines.subrange(i, end);
    let after = lines.skip(end);
    assert(lines =~= before + here + after);
    lemma_contents_add(before + here, after);
    lemma_contents_add(before, here);
    let a = old_contents(before).len() as int;
    let b = new_contents(before).len() as int;
    assert(old_contents(here) =~= old_contents(lines).subrange(a, a + old_contents(here).len()));
    assert(new_contents(here) =~= new_contents(lines).subrange(b, b + new_contents(here).len()));
}

/// A line is numbered on the sides on which it stands: a context line on both, a removed line on the
/// old one, an added line on the new one; and only a context line is no change.
pub proof fn law_line_sides(line: LineV)
    ensures
        line.old_lineno() is Some <==> !(line is Added),
        line.new_lineno() is Some <==> !(line is Removed),
        line.is_change() <==> !(line is Context),
        line.is_change() <==> line.old_lineno() is None || line.new_lineno() is None,
{
}

/// What a diff tells of two texts. With whitespace shown, its lines are those of both texts, as far
/// as carriage returns only end lines. With whitespace ignored they are those of the new text, and
/// of the old one up to whitespace; and there is nothing to show where both texts have the same
/// words line by line. Lines and hunks are numbered from one.
pub open spec fn tells(doc: FileDiffV, old: Seq<char>, new: Seq<char>, ignore_ws: bool) -> bool {
    &&& lines_numbered(doc.lines)
    &&& forall|k: int| 0 <= k < doc.hunks.len() ==> headed(doc.lines, #[trigger] doc.hunks[k])
    &&& !ignore_ws && returns_end_lines(old) ==> old_contents(doc.lines) == text::lines_v(old)
    &&& !ignore_ws && returns_end_lines(new) ==> new_contents(doc.lines) == text::lines_v(new)
    &&& ignore_ws ==> new_contents(doc.lines) == text::lines_v(new)
    &&& ignore_ws ==> normalized_v(old_contents(doc.lines)) == normalized_v(text::lines_v(old))
    &&& ignore_ws && line_words_v(old) == line_words_v(new) ==> doc.hunks.len() == 0
}

/// With whitespace ignored, texts with the same words line by line have no hunks, as long as a diff
/// of equal lists keeps them.
pub proof fn law_same_words_no_hunk(old: Seq<char>, new: Seq<char>, context: nat)
    requires
        line_words_v(old) == line_words_v(new),
        forall|xs: Seq<Seq<char>>| changes::all_kept(#[trigger] changes::slice_changes_v(xs, xs)),
    ensures
        build_file_diff_v(old, new, context, true).hunks.len() == 0,
{
    lemma_same_words(old, new);
    let xs = normalized_v(text::lines_v(old));
    let cs = changes::slice_changes_v(xs, xs);
    assert(changes::all_kept(cs));
    let lines = diff_lines_v(old, new, true);
    assert forall|k: int| 0 <= k < lines.len() implies !(#[trigger] lines[k]).is_change() by {
        assert(cs[k].tag == Tag::Equal);
    }
    law_no_change_no_hunk(lines, context);
}

// ---- What the hash of a change is made of ----

/// The hash of a file's change is that of its path, a mark, and the changes with three lines around
/// them, one after the other: each as a sign for what happened, its text, and a newline.
pub proof fn law_hash_input(
    path: Seq<char>,
    old: Seq<char>,
    new: Seq<char>,
    a: Seq<ChangeV>,
    b: Seq<ChangeV>,
    c: ChangeV,
)
    ensures
        content_hash_v(path, old, new) == sea_hash_v(
            encode_utf8(path) + seq![0xffu8] + change_bytes_v(
                changes::grouped_changes_v(canonical_v(old), canonical_v(new), 3),
            ),
        ),
        change_bytes_v(Seq::empty()).len() == 0,
        change_bytes_v(seq![c]) == seq![
            match c.tag {
                Tag::Equal => 0x20u8,
                Tag::Delete => 0x2du8,
                Tag::Insert => 0x2bu8,
            },
        ] + encode_utf8(text::trim_eol_v(c.value)) + seq![0x0au8],
        change_bytes_v(a + b) == change_bytes_v(a) + change_bytes_v(b),
    decreases b.len(),
{
    reveal_with_fuel(change_bytes_v, 2);
    assert(encode_utf8(path).push(0xff) =~= encode_utf8(path) + seq![0xffu8]);
    assert(seq![c].drop_last() =~= Seq::empty());
    assert(change_bytes_v(seq![c]) =~= seq![tag_byte_v(c.tag)] + encode_utf8(
        text::trim_eol_v(c.value),
    ) + seq![0x0au8]);
    if b.len() > 0 {
        law_hash_input(path, old, new, a, b.drop_last(), c);
        assert((a + b).drop_last() =~= a + b.drop_last());
        assert((a + b).last() == b.last());
        assert(change_bytes_v(a + b) =~= change_bytes_v(a) + change_bytes_v(b));
    } else {
        assert(a + b =~= a);
        assert(change_bytes_v(a) + change_bytes_v(b) =~= change_bytes_v(a));
    }
}

/// The texts of a change are compared with each line's whitespace normalized.
pub proof fn law_canonical(a: Seq<char>, b: Seq<char>)
    requires
        line_words_v(a) == line_words_v(b),
    ensures
        canonical_v(a) == canonical_v(b),
{
    lemma_same_words(a, b);
}

} // verus!
