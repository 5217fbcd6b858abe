//! The line, slice and character diffs of two texts, as the `similar` crate computes them.
use vstd::prelude::*;

verus! {

broadcast use vstd::seq_lib::group_seq_properties;

/// What a change does with its token.
#[derive(Clone, Copy, PartialEq, Eq, Debug, Structural)]
pub enum Tag {
    /// The token stands on both sides.
    Equal,
    /// The token stands on the old side only.
    Delete,
    /// The token stands on the new side only.
    Insert,
}

/// One token of a diff: a line, a slice item or a character.
#[derive(Debug)]
pub struct Change {
    pub tag: Tag,
    /// The token's index among the tokens of the old side.
    pub old_index: Option<usize>,
    /// The token's index among the tokens of the new side.
    pub new_index: Option<usize>,
    pub value: String,
}

/// The mathematical value of a [`Change`].
#[verifier::ext_equal]
pub ghost struct ChangeV {
    pub tag: Tag,
    pub old_index: Option<int>,
    pub new_index: Option<int>,
    pub value: Seq<char>,
}

/// An optional machine index as a mathematical one.
pub open spec fn opt_int(i: Option<usize>) -> Option<int> {
    match i {
        Some(n) => Some(n as int),
        None => None,
    }
}

impl DeepView for Change {
    type V = ChangeV;

    open spec fn deep_view(&self) -> ChangeV {
        ChangeV {
            tag: self.tag,
            old_index: opt_int(self.old_index),
            new_index: opt_int(self.new_index),
            value: self.value@,
        }
    }
}

/// The tokens of the old side, in order.
pub open spec fn old_values(cs: Seq<ChangeV>) -> Seq<Seq<char>>
    decreases cs.len(),
{
    if cs.len() == 0 {
        Seq::empty()
    } else if cs.last().tag == Tag::Insert {
        old_values(cs.drop_last())
    } else {
        old_values(cs.drop_last()).push(cs.last().value)
    }
}

/// The tokens of the new side, in order.
pub open spec fn new_values(cs: Seq<ChangeV>) -> Seq<Seq<char>>
    decreases cs.len(),
{
    if cs.len() == 0 {
        Seq::empty()
    } else if cs.last().tag == Tag::Delete {
        new_values(cs.drop_last())
    } else {
        new_values(cs.drop_last()).push(cs.last().value)
    }
}

/// The change at `k` carries the indices that its place among the tokens of each side gives it.
pub open spec fn placed(cs: Seq<ChangeV>, k: int) -> bool {
    &&& cs[k].old_index == (if cs[k].tag == Tag::Insert {
        None
    } else {
        Some(old_values(cs.take(k)).len() as int)
    })
    &&& cs[k].new_index == (if cs[k].tag == Tag::Delete {
        None
    } else {
        Some(new_values(cs.take(k)).len() as int)
    })
}

/// Each side's tokens are numbered from zero, in order.
pub open spec fn numbered(cs: Seq<ChangeV>) -> bool {
    forall|k: int| 0 <= k < cs.len() ==> #[trigger] placed(cs, k)
}

/// A side has at most one token for each change, and a prefix no more than the whole.
pub proof fn lemma_side_lens(cs: Seq<ChangeV>, k: int)
    requires
        0 <= k <= cs.len(),
    ensures
        old_values(cs.take(k)).len() <= k,
        new_values(cs.take(k)).len() <= k,
        old_values(cs.take(k)).len() <= old_values(cs).len() <= cs.len(),
        new_values(cs.take(k)).len() <= new_values(cs).len() <= cs.len(),
        k < cs.len() && cs[k].tag != Tag::Insert ==> old_values(cs.take(k)).len() < old_values(
            cs,
        ).len() && old_values(cs)[old_values(cs.take(k)).len() as int] == cs[k].value,
        k < cs.len() && cs[k].tag != Tag::Delete ==> new_values(cs.take(k)).len() < new_values(
            cs,
        ).len() && new_values(cs)[new_values(cs.take(k)).len() as int] == cs[k].value,
    decreases cs.len(),
{
    if cs.len() == 0 {
        assert(cs.take(k) =~= cs);
    } else if k == cs.len() {
        assert(cs.take(k) =~= cs);
        lemma_side_lens(cs.drop_last(), k - 1);
        assert(cs.drop_last().take(k - 1) =~= cs.drop_last());
    } else {
        assert(cs.take(k) =~= cs.drop_last().take(k));
        lemma_side_lens(cs.drop_last(), k);
        if k == cs.len() - 1 {
            assert(cs.take(k) =~= cs.drop_last());
        }
    }
}

/// Where the first line of a text ends, behind its terminator: `\n`, `\r\n` or a lone `\r`.
pub open spec fn line_end_v(s: Seq<char>) -> int
    decreases s.len(),
{
    if s.len() == 0 {
        0
    } else if s[0] == '\n' {
        1
    } else if s[0] == '\r' {
        if s.len() > 1 && s[1] == '\n' {
            2
        } else {
            1
        }
    } else {
        1 + line_end_v(s.drop_first())
    }
}

/// The lines of a text, each with its terminator.
pub open spec fn line_tokens_v(s: Seq<char>) -> Seq<Seq<char>>
    decreases s.len(),
{
    let k = line_end_v(s);
    if k <= 0 || k > s.len() {
        Seq::empty()
    } else {
        seq![s.take(k)] + line_tokens_v(s.skip(k))
    }
}

/// What the line diff of two texts is.
pub uninterp spec fn line_changes_v(old: Seq<char>, new: Seq<char>) -> Seq<ChangeV>;

/// `similar::TextDiff::from_lines` and its `iter_all_changes`: the Myers diff of the two texts
/// taken as lines, each with its terminator.
///
/// Claimed of it: it depends on the texts alone; the kept and deleted tokens are the lines of the
/// old text in order, the kept and inserted ones those of the new text; each carries its index on
/// each side. Which of the shortest edit scripts it is, is not stated.
#[verifier::external_body]
pub(crate) fn line_changes(old: &str, new: &str) -> (r: Vec<Change>)
    ensures
        r.deep_view() == line_changes_v(old@, new@),
        numbered(r.deep_view()),
        old_values(r.deep_view()) == line_tokens_v(old@),
        new_values(r.deep_view()) == line_tokens_v(new@),
{
    let diff = similar::TextDiff::from_lines(old, new);
    diff.iter_all_changes().map(|c| Change {
        tag: match c.tag() {
            similar::ChangeTag::Equal => Tag::Equal,
            similar::ChangeTag::Delete => Tag::Delete,
            similar::ChangeTag::Insert => Tag::Insert,
        },
        old_index: c.old_index(),
        new_index: c.new_index(),
        value: c.value().to_string(),
    }).collect()
}

/// Is everything kept?
pub open spec fn all_kept(cs: Seq<ChangeV>) -> bool {
    forall|k: int| 0 <= k < cs.len() ==> (#[trigger] cs[k]).tag == Tag::Equal
}

/// What the diff of two lists of items is.
pub uninterp spec fn slice_changes_v(old: Seq<Seq<char>>, new: Seq<Seq<char>>) -> Seq<ChangeV>;

/// `similar::TextDiff::from_slices` and its `iter_all_changes`: the Myers diff of two lists.
///
/// Claimed of it: it depends on the lists alone; the kept and deleted tokens are the old list, the
/// kept and inserted ones the new list; each carries its index on each side; and of equal lists
/// everything is kept, as their common start is all there is.
#[verifier::external_body]
pub(crate) fn slice_changes(old: &Vec<String>, new: &Vec<String>) -> (r: Vec<Change>)
    ensures
        r.deep_view() == slice_changes_v(old.deep_view(), new.deep_view()),
        numbered(r.deep_view()),
        old_values(r.deep_view()) == old.deep_view(),
        new_values(r.deep_view()) == new.deep_view(),
        old.deep_view() == new.deep_view() ==> all_kept(r.deep_view()),
{
    let a: Vec<&str> = old.iter().map(String::as_str).collect();
    let b: Vec<&str> = new.iter().map(String::as_str).collect();
    let diff = similar::TextDiff::from_slices(&a, &b);
    diff.iter_all_changes().map(|c| Change {
        tag: match c.tag() {
            similar::ChangeTag::Equal => Tag::Equal,
            similar::ChangeTag::Delete => Tag::Delete,
            similar::ChangeTag::Insert => Tag::Insert,
        },
        old_index: c.old_index(),
        new_index: c.new_index(),
        value: c.value().to_string(),
    }).collect()
}

/// What the clusters of the line diff of two texts are, one after the other, each with `radius`
/// lines of context.
pub uninterp spec fn grouped_changes_v(
    old: Seq<char>,
    new: Seq<char>,
    radius: nat,
) -> Seq<ChangeV>;

/// `similar::TextDiff::from_lines` and its `grouped_ops`, whose groups are walked in order with
/// `iter_changes`. Claimed of it: it depends on the texts and the radius alone. It doubles the
/// radius, which therefore has to be small enough for that.
#[verifier::external_body]
pub(crate) fn grouped_changes(old: &str, new: &str, radius: usize) -> (r: Vec<Change>)
    requires
        radius <= usize::MAX / 2,
    ensures
        r.deep_view() == grouped_changes_v(old@, new@, radius as nat),
{
    let diff = similar::TextDiff::from_lines(old, new);
    let groups = diff.grouped_ops(radius);
    groups.iter().flatten().flat_map(|op| diff.iter_changes(op)).map(|c| Change {
        tag: match c.tag() {
            similar::ChangeTag::Equal => Tag::Equal,
            similar::ChangeTag::Delete => Tag::Delete,
            similar::ChangeTag::Insert => Tag::Insert,
        },
        old_index: c.old_index(),
        new_index: c.new_index(),
        value: c.value().to_string(),
    }).collect()
}

/// What the character diff of two texts is.
pub uninterp spec fn char_changes_v(old: Seq<char>, new: Seq<char>) -> Seq<ChangeV>;

/// `similar::TextDiff::from_chars` and its `iter_all_changes`: the Myers diff of two texts taken
/// as characters.
///
/// Claimed of it: it depends on the texts alone; the kept and deleted tokens are the characters of
/// the old text in order, the kept and inserted ones those of the new text; each carries its index
/// on each side.
#[verifier::external_body]
pub(crate) fn char_changes(old: &str, new: &str) -> (r: Vec<Change>)
    ensures
        r.deep_view() == char_changes_v(old@, new@),
        numbered(r.deep_view()),
        old_values(r.deep_view()) == old@.map_values(|c: char| seq![c]),
        new_values(r.deep_view()) == new@.map_values(|c: char| seq![c]),
{
    let diff = similar::TextDiff::from_chars(old, new);
    diff.iter_all_changes().map(|c| Change {
        tag: match c.tag() {
            similar::ChangeTag::Equal => Tag::Equal,
            similar::ChangeTag::Delete => Tag::Delete,
            similar::ChangeTag::Insert => Tag::Insert,
        },
        old_index: c.old_index(),
        new_index: c.new_index(),
        value: c.value().to_string(),
    }).collect()
}

/// The similarity of two texts, as the bits of a single-precision number between zero and one.
/// Numbers of that range are ordered as their bits are.
pub uninterp spec fn ratio_bits_v(old: Seq<char>, new: Seq<char>) -> u32;

/// `similar::TextDiff::from_chars` and its `ratio`: twice the number of kept characters over the
/// number of characters of both texts, or one where both are empty.
///
/// Claimed of it: it depends on the texts alone and is between zero and one, whose bits are
/// `0x3f80_0000`. The quotient itself, a rounded division, is not stated.
#[verifier::external_body]
pub(crate) fn ratio_bits(old: &str, new: &str) -> (r: u32)
    ensures
        r == ratio_bits_v(old@, new@),
        r <= 0x3f80_0000,
{
    similar::TextDiff::from_chars(old, new).ratio().to_bits()
}

} // verus!
