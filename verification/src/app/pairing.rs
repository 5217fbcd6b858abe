//! Pairing of removed with added lines, and what changed within paired lines.
use std::collections::{HashMap, HashSet};
use vstd::prelude::*;
use vstd::string::*;

use super::coverage;
use super::marks;
use crate::text;
use crate::changes::{ratio_bits, ChangeV, Tag};
use crate::changes;
use crate::git::diff::normalize_line;
use crate::git::model::{DiffLine, FileDiff, HunkV, LineV};
use crate::text::{byte_len, same};

verus! {

broadcast use {vstd::seq_lib::group_seq_properties, vstd::std_specs::hash::group_hash_axioms};

/// The similarity above which a removed line is paired with an added one: one half, as the bits of
/// a single-precision number.
pub const SIMILARITY_THRESHOLD: u32 = 0x3f00_0000;

/// The similarity of equal texts: one, as the bits of a single-precision number.
pub const IDENTICAL: u32 = 0x3f80_0000;

/// Blocks of more lines than this are not paired, which takes a comparison of each removed with
/// each added line, but stacked.
pub const MAX_PAIR_BLOCK: usize = 400;

/// The characters of lines of more bytes than this are not compared.
pub const MAX_INTRA_LINE: usize = 2000;

/// The similarity of two texts, as the bits of a number between zero and one.
pub open spec fn similarity_v(a: Seq<char>, b: Seq<char>) -> u32 {
    if a == b {
        IDENTICAL
    } else {
        changes::ratio_bits_v(a, b)
    }
}

/// The similarity of two texts by characters, as the bits of a single-precision number between
/// zero and one. Such bits are ordered as the numbers are.
pub fn similarity(a: &str, b: &str) -> (r: u32)
    ensures
        r == similarity_v(a@, b@),
        r <= IDENTICAL,
{
    if same(a, b) {
        IDENTICAL
    } else {
        ratio_bits(a, b)
    }
}

/// The added line at `i` may be paired with the removed text `r`: none has taken it, and it is
/// similar enough.
pub open spec fn eligible(r: Seq<char>, cands: Seq<Seq<char>>, used: Set<int>, i: int) -> bool {
    0 <= i < cands.len() && !used.contains(i) && similarity_v(r, cands[i]) > SIMILARITY_THRESHOLD
}

/// The added line at `i` is the first of the most similar ones that may be paired with `r`.
pub open spec fn is_pick(r: Seq<char>, cands: Seq<Seq<char>>, used: Set<int>, i: int) -> bool {
    eligible(r, cands, used, i) && forall|j: int| #[trigger]
        eligible(r, cands, used, j) ==> similarity_v(r, cands[j]) < similarity_v(r, cands[i]) || (
        similarity_v(r, cands[j]) == similarity_v(r, cands[i]) && i <= j)
}

/// Which added line is paired with the removed text `r`.
pub open spec fn pick_v(r: Seq<char>, cands: Seq<Seq<char>>, used: Set<int>) -> Option<int> {
    if exists|i: int| is_pick(r, cands, used, i) {
        Some(choose|i: int| is_pick(r, cands, used, i))
    } else {
        None
    }
}

/// The added lines that some removed line has taken.
pub open spec fn taken(picks: Seq<Option<int>>) -> Set<int> {
    Set::new(|i: int| picks.contains(Some(i)))
}

/// The choices for the first `k` removed texts, each made in turn.
pub open spec fn picks_v(rs: Seq<Seq<char>>, cands: Seq<Seq<char>>, k: nat) -> Seq<Option<int>>
    decreases k,
{
    if k == 0 {
        Seq::empty()
    } else {
        let before = picks_v(rs, cands, (k - 1) as nat);
        before.push(pick_v(rs[k - 1], cands, taken(before)))
    }
}

/// The texts of the lines at some indices.
pub open spec fn texts_at(lines: Seq<LineV>, at: Seq<usize>) -> Seq<Seq<char>> {
    at.map_values(|i: usize| lines[i as int].content())
}

/// A removed line on its own row.
pub open spec fn left_only(at: Seq<usize>) -> Seq<(Option<usize>, Option<usize>)> {
    at.map_values(|i: usize| (Some(i), None::<usize>))
}

/// An added line on its own row.
pub open spec fn right_only(at: Seq<usize>) -> Seq<(Option<usize>, Option<usize>)> {
    at.map_values(|i: usize| (None::<usize>, Some(i)))
}

/// The added lines among the first `k` that none has taken.
pub open spec fn untaken(added: Seq<usize>, used: Set<int>, k: nat) -> Seq<usize>
    decreases k,
{
    if k == 0 {
        Seq::empty()
    } else if used.contains(k - 1) {
        untaken(added, used, (k - 1) as nat)
    } else {
        untaken(added, used, (k - 1) as nat).push(added[k - 1])
    }
}

/// The rows of the removed lines: each with the added line chosen for it, if any.
pub open spec fn paired_rows(
    removed: Seq<usize>,
    added: Seq<usize>,
    picks: Seq<Option<int>>,
) -> Seq<(Option<usize>, Option<usize>)> {
    Seq::new(
        picks.len(),
        |i: int|
            (
                Some(removed[i]),
                match picks[i] {
                    Some(a) => Some(added[a]),
                    None => None,
                },
            ),
    )
}

/// The rows of a block of removed and added lines: the removed lines in order, each with the first
/// of the most similar added lines not yet taken; then the added lines that are left.
pub open spec fn pair_changes_v(
    removed: Seq<usize>,
    added: Seq<usize>,
    lines: Seq<LineV>,
) -> Seq<(Option<usize>, Option<usize>)> {
    if removed.len() == 0 || added.len() == 0 || removed.len() + added.len() > MAX_PAIR_BLOCK {
        left_only(removed) + right_only(added)
    } else {
        let picks = picks_v(texts_at(lines, removed), texts_at(lines, added), removed.len());
        paired_rows(removed, added, picks) + right_only(
            untaken(added, taken(picks), added.len()),
        )
    }
}

/// Each index refers to one of `n` lines.
pub open spec fn all_below(at: Seq<usize>, n: nat) -> bool {
    forall|i: int| 0 <= i < at.len() ==> #[trigger] at[i] < n
}

/// The first of the most similar added lines that none has taken.
fn pick(text: &str, added: &Vec<usize>, lines: &Vec<DiffLine>, used: &Vec<bool>) -> (r: Option<
    usize,
>)
    requires
        all_below(added@, lines@.len()),
        used@.len() == added@.len(),
    ensures
        ({
            let cands = texts_at(lines.deep_view(), added@);
            let taken_set = Set::new(|i: int| 0 <= i < used@.len() && used@[i]);
            &&& r is Some == pick_v(text@, cands, taken_set) is Some
            &&& r matches Some(i) ==> i < added@.len() && !used@[i as int] && pick_v(
                text@,
                cands,
                taken_set,
            ) == Some(i as int)
        }),
{
    let ghost cands = texts_at(lines.deep_view(), added@);
    let ghost taken_set = Set::new(|i: int| 0 <= i < used@.len() && used@[i]);
    let mut best: Option<usize> = None;
    let mut best_score: u32 = SIMILARITY_THRESHOLD;
    let mut i: usize = 0;
    while i < added.len()
        invariant
            i <= added@.len() == used@.len() == cands.len(),
            all_below(added@, lines@.len()),
            cands == texts_at(lines.deep_view(), added@),
            taken_set == Set::new(|i: int| 0 <= i < used@.len() && used@[i]),
            match best {
                Some(b) => b < i && eligible(text@, cands, taken_set, b as int) && best_score
                    == similarity_v(text@, cands[b as int]),
                None => best_score == SIMILARITY_THRESHOLD,
            },
            forall|j: int|
                j < i && #[trigger] eligible(text@, cands, taken_set, j) ==> (match best {
                    Some(b) => similarity_v(text@, cands[j]) < best_score || (similarity_v(
                        text@,
                        cands[j],
                    ) == best_score && b <= j),
                    None => false,
                }),
        decreases added@.len() - i,
    {
        assert(added@[i as int] < lines@.len());
        assert(cands[i as int] == lines.deep_view()[added@[i as int] as int].content());
        assert(taken_set.contains(i as int) == used@[i as int]);
        if !used[i] {
            assert(lines.deep_view()[added@[i as int] as int]
                == lines@[added@[i as int] as int].deep_view());
            let score: u32 = similarity(text, lines[added[i]].content());
            if score > best_score {
                best_score = score;
                best = Some(i);
            }
        }
        i = i + 1;
    }
    proof {
        match best {
            Some(b) => {
                assert(is_pick(text@, cands, taken_set, b as int));
                let c = choose|i: int| is_pick(text@, cands, taken_set, i);
                assert(is_pick(text@, cands, taken_set, c));
                assert(eligible(text@, cands, taken_set, c));
                assert(eligible(text@, cands, taken_set, b as int));
            },
            None => {
                assert forall|i: int| !is_pick(text@, cands, taken_set, i) by {
                    if is_pick(text@, cands, taken_set, i) {
                        assert(eligible(text@, cands, taken_set, i));
                    }
                }
            },
        }
    }
    best
}

/// A line on a row of its own, on the left.
fn stack_left(at: &Vec<usize>) -> (r: Vec<(Option<usize>, Option<usize>)>)
    ensures
        r@ == left_only(at@),
{
    let mut out: Vec<(Option<usize>, Option<usize>)> = Vec::new();
    let mut i: usize = 0;
    while i < at.len()
        invariant
            i <= at@.len(),
            out@ =~= left_only(at@).take(i as int),
        decreases at@.len() - i,
    {
        out.push((Some(at[i]), None));
        i = i + 1;
    }
    assert(left_only(at@).take(at@.len() as int) =~= left_only(at@));
    out
}

/// Appends to `out` a row for each line, on the right.
fn push_right(out: &mut Vec<(Option<usize>, Option<usize>)>, at: &Vec<usize>)
    ensures
        final(out)@ == old(out)@ + right_only(at@),
{
    let mut i: usize = 0;
    while i < at.len()
        invariant
            i <= at@.len(),
            out@ =~= old(out)@ + right_only(at@).take(i as int),
        decreases at@.len() - i,
    {
        out.push((None, Some(at[i])));
        i = i + 1;
    }
    assert(right_only(at@).take(at@.len() as int) =~= right_only(at@));
}

/// Pairs removed lines with added ones: each removed line in turn with the first of the most similar
/// added lines that none has taken, if it is similar enough. Gives the cells `(left, right)` of
/// the rows in order: the removed lines, then the added lines that are left.
pub fn pair_changes(removed: &Vec<usize>, added: &Vec<usize>, lines: &Vec<DiffLine>) -> (r: Vec<
    (Option<usize>, Option<usize>),
>)
    requires
        all_below(removed@, lines@.len()),
        all_below(added@, lines@.len()),
    ensures
        r@ == pair_changes_v(removed@, added@, lines.deep_view()),
{
    let ghost ls = lines.deep_view();
    if removed.len() == 0 || added.len() == 0 || removed.len() > MAX_PAIR_BLOCK || added.len()
        > MAX_PAIR_BLOCK - removed.len() {
        let mut out = stack_left(removed);
        push_right(&mut out, added);
        return out;
    }
    let ghost rs = texts_at(ls, removed@);
    let ghost cands = texts_at(ls, added@);
    let mut used: Vec<bool> = vec![false; added.len()];
    let mut out: Vec<(Option<usize>, Option<usize>)> = Vec::new();
    let mut i: usize = 0;
    assert(taken(Seq::empty()) =~= Set::new(|j: int| 0 <= j < used@.len() && used@[j]));
    while i < removed.len()
        invariant
            i <= removed@.len(),
            used@.len() == added@.len(),
            ls == lines.deep_view(),
            rs == texts_at(ls, removed@),
            cands == texts_at(ls, added@),
            all_below(removed@, lines@.len()),
            all_below(added@, lines@.len()),
            picks_v(rs, cands, i as nat).len() == i,
            taken(picks_v(rs, cands, i as nat)) == Set::new(
                |j: int| 0 <= j < used@.len() && used@[j],
            ),
            out@ =~= paired_rows(removed@, added@, picks_v(rs, cands, i as nat)),
        decreases removed@.len() - i,
    {
        let ghost picks = picks_v(rs, cands, i as nat);
        let ghost used_before = used@;
        assert(removed@[i as int] < lines@.len());
        let r: usize = removed[i];
        assert(ls[r as int] == lines@[r as int].deep_view());
        assert(rs[i as int] == ls[r as int].content());
        let choice = pick(lines[r].content(), added, lines, &used);
        let ghost next = picks.push(changes::opt_int(choice));
        assert(picks_v(rs, cands, (i + 1) as nat) =~= next);
        match choice {
            Some(a) => {
                used.set(a, true);
                out.push((Some(r), Some(added[a])));
            },
            None => {
                out.push((Some(r), None));
            },
        }
        assert forall|j: int| taken(next).contains(j) == (0 <= j < used@.len() && used@[j]) by {
            assert(taken(picks).contains(j) == (0 <= j < used_before.len() && used_before[j]));
            if picks.contains(Some(j)) {
                let k = choose|k: int| 0 <= k < picks.len() && picks[k] == Some(j);
                assert(next[k] == Some(j));
            }
            if next.contains(Some(j)) {
                let k = choose|k: int| 0 <= k < next.len() && next[k] == Some(j);
                if k < picks.len() {
                    assert(picks[k] == Some(j));
                }
            }
            assert(next[picks.len() as int] == changes::opt_int(choice));
        }
        assert(taken(next) =~= Set::new(|j: int| 0 <= j < used@.len() && used@[j]));
        assert(out@ =~= paired_rows(removed@, added@, next));
        i = i + 1;
    }
    let ghost picks = picks_v(rs, cands, removed@.len());
    let ghost used_set = taken(picks);
    let mut left: Vec<usize> = Vec::new();
    let mut k: usize = 0;
    while k < added.len()
        invariant
            k <= added@.len() == used@.len(),
            used_set == Set::new(|j: int| 0 <= j < used@.len() && used@[j]),
            left@ == untaken(added@, used_set, k as nat),
        decreases added@.len() - k,
    {
        assert(used_set.contains(k as int) == used@[k as int]);
        if !used[k] {
            left.push(added[k]);
        }
        k = k + 1;
    }
    push_right(&mut out, &left);
    out
}

// ---- What pairing keeps ----

/// Each choice is an added line, and no two removed lines choose the same.
proof fn lemma_picks(rs: Seq<Seq<char>>, cands: Seq<Seq<char>>, k: nat)
    ensures
        picks_v(rs, cands, k).len() == k,
        forall|i: int|
            0 <= i < k ==> (#[trigger] picks_v(rs, cands, k)[i] matches Some(a) ==> 0 <= a
                < cands.len()),
        forall|i: int, j: int|
            0 <= i < j < k && #[trigger] picks_v(rs, cands, k)[i] is Some ==> picks_v(
                rs,
                cands,
                k,
            )[i] != #[trigger] picks_v(rs, cands, k)[j],
    decreases k,
{
    if k > 0 {
        let before = picks_v(rs, cands, (k - 1) as nat);
        lemma_picks(rs, cands, (k - 1) as nat);
        let last = pick_v(rs[k - 1], cands, taken(before));
        if last is Some {
            let r = rs[k - 1];
            let used = taken(before);
            let a = choose|i: int| is_pick(r, cands, used, i);
            assert(is_pick(r, cands, used, a));
            assert(eligible(r, cands, used, a));
            assert(!before.contains(Some(a)));
            assert forall|i: int| 0 <= i < before.len() implies before[i] != Some(a) by {
                assert(before.contains(before[i]));
            }
        }
    }
}

/// The lines left over are those at the indices that none has taken.
proof fn lemma_untaken(added: Seq<usize>, used: Set<int>, k: nat)
    requires
        k <= added.len(),
        added.no_duplicates(),
    ensures
        forall|x: usize|
            untaken(added, used, k).contains(x) <==> exists|j: int|
                0 <= j < k && !used.contains(j) && #[trigger] added[j] == x,
        untaken(added, used, k).no_duplicates(),
    decreases k,
{
    let u = untaken(added, used, k);
    if k > 0 {
        let before = untaken(added, used, (k - 1) as nat);
        lemma_untaken(added, used, (k - 1) as nat);
        let x = added[k - 1];
        if !used.contains(k - 1) {
            assert(!before.contains(x)) by {
                if before.contains(x) {
                    let j = choose|j: int|
                        0 <= j < k - 1 && !used.contains(j) && #[trigger] added[j] == x;
                    assert(added[j] == added[k - 1]);
                }
            }
            assert forall|y: usize|
                u.contains(y) <==> exists|j: int|
                    0 <= j < k && !used.contains(j) && #[trigger] added[j] == y by {
                if u.contains(y) {
                    let i = choose|i: int| 0 <= i < u.len() && u[i] == y;
                    if i < before.len() {
                        assert(before[i] == y);
                        assert(before.contains(y));
                    } else {
                        assert(added[k - 1] == y);
                    }
                }
                if exists|j: int| 0 <= j < k && !used.contains(j) && #[trigger] added[j] == y {
                    let j = choose|j: int|
                        0 <= j < k && !used.contains(j) && #[trigger] added[j] == y;
                    if j < k - 1 {
                        assert(before.contains(y));
                        let i = choose|i: int| 0 <= i < before.len() && before[i] == y;
                        assert(u[i] == y);
                    } else {
                        assert(u[u.len() - 1] == y);
                    }
                }
            }
        }
    }
}

/// What is chosen for a removed line may be paired with it.
proof fn lemma_picks_eligible(rs: Seq<Seq<char>>, cands: Seq<Seq<char>>, k: nat)
    ensures
        picks_v(rs, cands, k).len() == k,
        forall|i: int|
            0 <= i < k ==> ((#[trigger] picks_v(rs, cands, k)[i]) matches Some(a) ==> 0 <= a
                < cands.len() && similarity_v(rs[i], cands[a]) > SIMILARITY_THRESHOLD),
    decreases k,
{
    if k > 0 {
        let p = (k - 1) as nat;
        lemma_picks_eligible(rs, cands, p);
        let before = picks_v(rs, cands, p);
        let all = picks_v(rs, cands, k);
        assert forall|i: int| 0 <= i < k implies ((#[trigger] all[i]) matches Some(a) ==> 0 <= a
            < cands.len() && similarity_v(rs[i], cands[a]) > SIMILARITY_THRESHOLD) by {
            if i < p {
                assert(all[i] == before[i]);
            } else if let Some(a) = all[i] {
                assert(is_pick(rs[p as int], cands, taken(before), a));
            }
        }
    }
}

/// Only lines that are similar enough share a row, and none does in a large block.
pub proof fn law_paired_lines_are_similar(removed: Seq<usize>, added: Seq<usize>, lines: Seq<LineV>)
    ensures
        ({
            let rows = pair_changes_v(removed, added, lines);
            forall|i: int|
                0 <= i < rows.len() ==> ((#[trigger] rows[i]) matches (Some(l), Some(r))
                    ==> similarity_v(lines[l as int].content(), lines[r as int].content())
                    > SIMILARITY_THRESHOLD && removed.len() + added.len() <= MAX_PAIR_BLOCK)
        }),
{
    let rows = pair_changes_v(removed, added, lines);
    if removed.len() == 0 || added.len() == 0 || removed.len() + added.len() > MAX_PAIR_BLOCK {
        assert forall|i: int| 0 <= i < rows.len() implies (#[trigger] rows[i]).0 is None
            || rows[i].1 is None by {
            if i < removed.len() {
                assert(rows[i] == left_only(removed)[i]);
            } else {
                assert(rows[i] == right_only(added)[i - removed.len()]);
            }
        }
    } else {
        let rs = texts_at(lines, removed);
        let cands = texts_at(lines, added);
        let picks = picks_v(rs, cands, removed.len());
        let left = untaken(added, taken(picks), added.len());
        lemma_picks_eligible(rs, cands, removed.len());
        assert forall|i: int| 0 <= i < rows.len() implies ((#[trigger] rows[i]) matches (
            Some(l),
            Some(r),
        ) ==> similarity_v(lines[l as int].content(), lines[r as int].content())
            > SIMILARITY_THRESHOLD) by {
            if i < removed.len() {
                assert(rows[i] == paired_rows(removed, added, picks)[i]);
                if let Some(a) = picks[i] {
                    assert(rs[i] == lines[removed[i] as int].content());
                    assert(cands[a] == lines[added[a] as int].content());
                }
            } else {
                assert(rows[i] == right_only(left)[i - removed.len()]);
            }
        }
    }
}

/// Pairing loses no line and shows none twice: the first rows hold the removed lines, one each and
/// in order, the others hold added lines alone; and each added line is on exactly one row.
pub proof fn law_pairing_keeps_every_line(
    removed: Seq<usize>,
    added: Seq<usize>,
    lines: Seq<LineV>,
)
    requires
        added.no_duplicates(),
    ensures
        ({
            let rows = pair_changes_v(removed, added, lines);
            &&& rows.len() >= removed.len()
            &&& forall|i: int|
                0 <= i < removed.len() ==> (#[trigger] rows[i]).0 == Some(removed[i])
            &&& forall|i: int|
                removed.len() <= i < rows.len() ==> (#[trigger] rows[i]).0 is None && rows[i].1
                    is Some
            &&& forall|i: int|
                0 <= i < rows.len() ==> ((#[trigger] rows[i]).1 matches Some(a) ==> added.contains(
                    a,
                ))
            &&& forall|a: usize| #[trigger]
                added.contains(a) ==> exists|i: int|
                    0 <= i < rows.len() && (#[trigger] rows[i]).1 == Some(a)
            &&& forall|i: int, j: int|
                0 <= i < j < rows.len() && (#[trigger] rows[i]).1 is Some ==> rows[i].1 != (
                #[trigger] rows[j]).1
        }),
{
    let rows = pair_changes_v(removed, added, lines);
    if removed.len() == 0 || added.len() == 0 || removed.len() + added.len() > MAX_PAIR_BLOCK {
        let n = removed.len() as int;
        assert forall|a: usize| #[trigger] added.contains(a) implies exists|i: int|
            0 <= i < rows.len() && (#[trigger] rows[i]).1 == Some(a) by {
            let j = choose|j: int| 0 <= j < added.len() && added[j] == a;
            assert(rows[n + j].1 == Some(a));
        }
        assert forall|i: int| 0 <= i < rows.len() implies ((#[trigger] rows[i]).1 matches Some(a)
            ==> added.contains(a)) by {
            if i >= n {
                assert(rows[i].1 == Some(added[i - n]));
            }
        }
        assert forall|i: int, j: int|
            0 <= i < j < rows.len() && (#[trigger] rows[i]).1 is Some implies rows[i].1 != (
        #[trigger] rows[j]).1 by {
            assert(rows[i].1 == Some(added[i - n]));
            assert(rows[j].1 == Some(added[j - n]));
        }
    } else {
        let rs = texts_at(lines, removed);
        let cands = texts_at(lines, added);
        let picks = picks_v(rs, cands, removed.len());
        let used = taken(picks);
        let left = untaken(added, used, added.len());
        let n = removed.len() as int;
        lemma_picks(rs, cands, removed.len());
        lemma_untaken(added, used, added.len());
        assert(cands.len() == added.len());
        assert forall|i: int| n <= i < rows.len() implies #[trigger] rows[i] == (
            None::<usize>,
            Some(left[i - n]),
        ) by {}
        assert forall|i: int| 0 <= i < rows.len() implies ((#[trigger] rows[i]).1 matches Some(a)
            ==> added.contains(a)) by {
            if i < n {
                if let Some(a) = picks[i] {
                    assert(added[a] == rows[i].1->0);
                }
            } else {
                assert(left.contains(left[i - n]));
            }
        }
        assert forall|a: usize| #[trigger] added.contains(a) implies exists|i: int|
            0 <= i < rows.len() && (#[trigger] rows[i]).1 == Some(a) by {
            let j = choose|j: int| 0 <= j < added.len() && added[j] == a;
            if used.contains(j) {
                let i = choose|i: int| 0 <= i < picks.len() && picks[i] == Some(j);
                assert(rows[i].1 == Some(a));
            } else {
                assert(left.contains(a));
                let i = choose|i: int| 0 <= i < left.len() && left[i] == a;
                assert(rows[n + i].1 == Some(a));
            }
        }
        assert forall|i: int, j: int|
            0 <= i < j < rows.len() && (#[trigger] rows[i]).1 is Some implies rows[i].1 != (
        #[trigger] rows[j]).1 by {
            if j < n {
                if rows[j].1 is Some {
                    assert(picks[i] != picks[j]);
                    assert(added[picks[i]->0] != added[picks[j]->0]);
                }
            } else if i < n {
                let x = left[j - n];
                assert(left.contains(x));
                let k = choose|k: int|
                    0 <= k < added.len() && !used.contains(k) && #[trigger] added[k] == x;
                let p = picks[i]->0;
                assert(picks[i] == Some(p));
                assert(used.contains(p));
                assert(p != k);
                assert(added[p] != added[k]);
            } else {
                assert(left[i - n] != left[j - n]);
            }
        }
    }
}

// ---- Runs of changes ----

/// The end of the run of changed lines that starts at `i`, before `end`.
pub open spec fn change_end(lines: Seq<LineV>, i: int, end: int) -> int
    decreases end - i,
{
    if i < end && lines[i].is_change() {
        change_end(lines, i + 1, end)
    } else {
        i
    }
}

/// A run of changes ends at or after its start, and after it where it starts with a change.
pub proof fn lemma_change_end(lines: Seq<LineV>, i: int, end: int)
    requires
        i <= end,
    ensures
        i <= change_end(lines, i, end) <= end,
        i < end && lines[i].is_change() ==> i < change_end(lines, i, end),
        forall|j: int|
            i <= j < change_end(lines, i, end) ==> (#[trigger] lines[j]).is_change(),
        change_end(lines, i, end) < end ==> !lines[change_end(lines, i, end)].is_change(),
    decreases end - i,
{
    if i < end && lines[i].is_change() {
        lemma_change_end(lines, i + 1, end);
    }
}

/// The indices from `i` to `end` of lines that stand on the old side.
pub open spec fn old_side(lines: Seq<LineV>, i: int, end: int) -> Seq<usize>
    decreases end - i,
{
    if i >= end {
        Seq::empty()
    } else if lines[end - 1].old_lineno() is Some {
        old_side(lines, i, end - 1).push((end - 1) as usize)
    } else {
        old_side(lines, i, end - 1)
    }
}

/// The indices from `i` to `end` of lines that stand on the new side.
pub open spec fn new_side(lines: Seq<LineV>, i: int, end: int) -> Seq<usize>
    decreases end - i,
{
    if i >= end {
        Seq::empty()
    } else if lines[end - 1].new_lineno() is Some {
        new_side(lines, i, end - 1).push((end - 1) as usize)
    } else {
        new_side(lines, i, end - 1)
    }
}

/// The rows of the run of changes from `i` to `end`.
pub open spec fn run_rows_v(lines: Seq<LineV>, i: int, end: int) -> Seq<
    (Option<usize>, Option<usize>),
> {
    pair_changes_v(old_side(lines, i, end), new_side(lines, i, end), lines)
}

/// The lines of the old side between two indices: in order, none twice, and all of them.
pub proof fn lemma_old_side(lines: Seq<LineV>, i: int, end: int)
    requires
        0 <= i <= end <= lines.len() <= usize::MAX,
    ensures
        old_side(lines, i, end).no_duplicates(),
        forall|x: usize| #[trigger]
            old_side(lines, i, end).contains(x) <==> i <= x < end && lines[x as int].old_lineno()
                is Some,
    decreases end - i,
{
    if i < end {
        lemma_old_side(lines, i, end - 1);
        let before = old_side(lines, i, end - 1);
        let all = old_side(lines, i, end);
        assert(!before.contains((end - 1) as usize));
        assert forall|a: int, b: int| 0 <= a < b < all.len() implies all[a] != all[b] by {
            if b == before.len() {
                assert(before.contains(before[a]));
            }
        }
        assert forall|x: usize| #[trigger] all.contains(x) <==> i <= x < end && lines[x as int].old_lineno()
            is Some by {
            assert(before.contains(x) <==> i <= x < end - 1 && lines[x as int].old_lineno() is Some);
            if before.contains(x) {
                let k = choose|k: int| 0 <= k < before.len() && before[k] == x;
                assert(all[k] == x);
            }
            if x == end - 1 && lines[x as int].old_lineno() is Some {
                assert(all[all.len() - 1] == x);
            }
        }
    }
}

/// The lines of the new side between two indices: none twice, and all of them.
pub proof fn lemma_new_side(lines: Seq<LineV>, i: int, end: int)
    requires
        0 <= i <= end <= lines.len() <= usize::MAX,
    ensures
        new_side(lines, i, end).no_duplicates(),
        forall|x: usize| #[trigger]
            new_side(lines, i, end).contains(x) <==> i <= x < end && lines[x as int].new_lineno()
                is Some,
    decreases end - i,
{
    if i < end {
        lemma_new_side(lines, i, end - 1);
        let before = new_side(lines, i, end - 1);
        let all = new_side(lines, i, end);
        assert(!before.contains((end - 1) as usize));
        assert forall|a: int, b: int| 0 <= a < b < all.len() implies all[a] != all[b] by {
            if b == before.len() {
                assert(before.contains(before[a]));
            }
        }
        assert forall|x: usize| #[trigger] all.contains(x) <==> i <= x < end && lines[x as int].new_lineno()
            is Some by {
            assert(before.contains(x) <==> i <= x < end - 1 && lines[x as int].new_lineno() is Some);
            if before.contains(x) {
                let k = choose|k: int| 0 <= k < before.len() && before[k] == x;
                assert(all[k] == x);
            }
            if x == end - 1 && lines[x as int].new_lineno() is Some {
                assert(all[all.len() - 1] == x);
            }
        }
    }
}

/// The rows of a run of changes hold lines of the run.
pub proof fn lemma_run_rows_within(lines: Seq<LineV>, i: int, end: int)
    requires
        0 <= i <= end <= lines.len() <= usize::MAX,
    ensures
        forall|k: int|
            0 <= k < run_rows_v(lines, i, end).len() ==> ((#[trigger] run_rows_v(
                lines,
                i,
                end,
            )[k]).0 matches Some(x) ==> x < end) && (run_rows_v(lines, i, end)[k].1 matches Some(
                x,
            ) ==> x < end),
{
    lemma_old_side(lines, i, end);
    lemma_new_side(lines, i, end);
    let removed = old_side(lines, i, end);
    let added = new_side(lines, i, end);
    law_pairing_keeps_every_line(removed, added, lines);
    let rows = run_rows_v(lines, i, end);
    assert forall|k: int| 0 <= k < rows.len() implies ((#[trigger] rows[k]).0 matches Some(x) ==> x
        < end) && (rows[k].1 matches Some(x) ==> x < end) by {
        if k < removed.len() {
            assert(rows[k].0 == Some(removed[k]));
            assert(removed.contains(removed[k]));
        }
        if let Some(a) = rows[k].1 {
            assert(added.contains(a));
        }
    }
}

/// The rows of the run of changes from `start` to `end`.
pub fn run_rows(lines: &Vec<DiffLine>, start: usize, end: usize) -> (r: Vec<
    (Option<usize>, Option<usize>),
>)
    requires
        start <= end <= lines@.len(),
    ensures
        r@ == run_rows_v(lines.deep_view(), start as int, end as int),
        forall|k: int|
            0 <= k < r@.len() ==> ((#[trigger] r@[k]).0 matches Some(i) ==> i < lines@.len()) && (
            r@[k].1 matches Some(i) ==> i < lines@.len()),
{
    let ghost ls = lines.deep_view();
    let mut removed: Vec<usize> = Vec::new();
    let mut added: Vec<usize> = Vec::new();
    let mut i: usize = start;
    while i < end
        invariant
            start <= i <= end <= lines@.len(),
            ls == lines.deep_view(),
            removed@ == old_side(ls, start as int, i as int),
            added@ == new_side(ls, start as int, i as int),
            all_below(removed@, lines@.len()),
            all_below(added@, lines@.len()),
            added@.no_duplicates(),
            forall|k: int| 0 <= k < added@.len() ==> #[trigger] added@[k] < i,
        decreases end - i,
    {
        assert(ls[i as int] == lines@[i as int].deep_view());
        if lines[i].old_lineno().is_some() {
            removed.push(i);
        }
        if lines[i].new_lineno().is_some() {
            added.push(i);
        }
        i = i + 1;
    }
    let r = pair_changes(&removed, &added, lines);
    proof {
        law_pairing_keeps_every_line(removed@, added@, ls);
        assert forall|k: int| 0 <= k < r@.len() implies ((#[trigger] r@[k]).0 matches Some(i) ==> i
            < lines@.len()) && (r@[k].1 matches Some(i) ==> i < lines@.len()) by {
            if k < removed@.len() {
                assert(r@[k].0 == Some(removed@[k]));
            }
            if let Some(a) = r@[k].1 {
                assert(added@.contains(a));
                let j = choose|j: int| 0 <= j < added@.len() && added@[j] == a;
                assert(added@[j] < lines@.len());
            }
        }
    }
    r
}

// ---- Changes within paired lines ----

/// The character indices that a diff deletes from the old text.
pub open spec fn deleted_v(cs: Seq<ChangeV>) -> Set<usize> {
    Set::new(
        |i: usize|
            exists|k: int|
                0 <= k < cs.len() && (#[trigger] cs[k]).tag == Tag::Delete && cs[k].old_index
                    == Some(i as int),
    )
}

/// The character indices that a diff inserts into the new text.
pub open spec fn inserted_v(cs: Seq<ChangeV>) -> Set<usize> {
    Set::new(
        |i: usize|
            exists|k: int|
                0 <= k < cs.len() && (#[trigger] cs[k]).tag == Tag::Insert && cs[k].new_index
                    == Some(i as int),
    )
}

/// The character indices that changed between two paired lines: none for lines that are too long.
pub open spec fn char_changes_sets_v(old: Seq<char>, new: Seq<char>) -> (Set<usize>, Set<usize>) {
    if text::byte_len_v(old) > MAX_INTRA_LINE || text::byte_len_v(new) > MAX_INTRA_LINE {
        (Set::empty(), Set::empty())
    } else {
        (
            deleted_v(changes::char_changes_v(old, new)),
            inserted_v(changes::char_changes_v(old, new)),
        )
    }
}

/// The character indices that a diff deletes from the old text and inserts into the new one.
pub fn changed_chars(list: &Vec<changes::Change>) -> (r: (HashSet<usize>, HashSet<usize>))
    requires
        changes::numbered(list.deep_view()),
    ensures
        r.0@ == deleted_v(list.deep_view()),
        r.1@ == inserted_v(list.deep_view()),
{
    let ghost cs = list.deep_view();
    let mut o: HashSet<usize> = HashSet::new();
    let mut n: HashSet<usize> = HashSet::new();
    let mut k: usize = 0;
    while k < list.len()
        invariant
            k <= list@.len(),
            cs == list.deep_view(),
            changes::numbered(cs),
            forall|i: usize|
                o@.contains(i) <==> exists|j: int|
                    0 <= j < k && (#[trigger] cs[j]).tag == Tag::Delete && cs[j].old_index == Some(
                        i as int,
                    ),
            forall|i: usize|
                n@.contains(i) <==> exists|j: int|
                    0 <= j < k && (#[trigger] cs[j]).tag == Tag::Insert && cs[j].new_index == Some(
                        i as int,
                    ),
        decreases list@.len() - k,
    {
        let ghost o1 = o@;
        let ghost n1 = n@;
        let c = &list[k];
        assert(cs[k as int] == c.deep_view());
        assert(changes::placed(cs, k as int));
        match c.tag {
            Tag::Delete => {
                if let Some(i) = c.old_index {
                    o.insert(i);
                }
            },
            Tag::Insert => {
                if let Some(i) = c.new_index {
                    n.insert(i);
                }
            },
            Tag::Equal => {},
        }
        assert forall|i: usize|
            o@.contains(i) <==> exists|j: int|
                0 <= j < k + 1 && (#[trigger] cs[j]).tag == Tag::Delete && cs[j].old_index == Some(
                    i as int,
                ) by {
            if o1.contains(i) {
                let j = choose|j: int|
                    0 <= j < k && (#[trigger] cs[j]).tag == Tag::Delete && cs[j].old_index == Some(
                        i as int,
                    );
                assert(cs[j].tag == Tag::Delete);
            }
            if o@.contains(i) && !o1.contains(i) {
                assert(cs[k as int].tag == Tag::Delete);
            }
        }
        assert forall|i: usize|
            n@.contains(i) <==> exists|j: int|
                0 <= j < k + 1 && (#[trigger] cs[j]).tag == Tag::Insert && cs[j].new_index == Some(
                    i as int,
                ) by {
            if n1.contains(i) {
                let j = choose|j: int|
                    0 <= j < k && (#[trigger] cs[j]).tag == Tag::Insert && cs[j].new_index == Some(
                        i as int,
                    );
                assert(cs[j].tag == Tag::Insert);
            }
            if n@.contains(i) && !n1.contains(i) {
                assert(cs[k as int].tag == Tag::Insert);
            }
        }
        k = k + 1;
    }
    assert(o@ =~= deleted_v(cs));
    assert(n@ =~= inserted_v(cs));
    (o, n)
}

/// The character indices that changed between two paired lines, on the old and on the new side.
pub fn char_changes(old: &str, new: &str) -> (r: (HashSet<usize>, HashSet<usize>))
    ensures
        r.0@ == char_changes_sets_v(old@, new@).0,
        r.1@ == char_changes_sets_v(old@, new@).1,
        marks::marked_as(old@, new@, r.0@, r.1@),
{
    if byte_len(old) > MAX_INTRA_LINE || byte_len(new) > MAX_INTRA_LINE {
        return (HashSet::new(), HashSet::new());
    }
    let list = changes::char_changes(old, new);
    proof {
        marks::law_marks_of_lines(old@, new@);
    }
    changed_chars(&list)
}

/// The pairs of lines among the rows of a run.
pub open spec fn both_v(rows: Seq<(Option<usize>, Option<usize>)>) -> Seq<(usize, usize)>
    decreases rows.len(),
{
    if rows.len() == 0 {
        Seq::empty()
    } else {
        let before = both_v(rows.drop_last());
        match rows.last() {
            (Some(l), Some(r)) => before.push((l, r)),
            _ => before,
        }
    }
}

/// The pairs of lines from `i` to `end`, in order.
pub open spec fn pairs_from(lines: Seq<LineV>, i: int, end: int) -> Seq<(usize, usize)>
    decreases end - i,
{
    if i >= end {
        Seq::empty()
    } else if !lines[i].is_change() {
        pairs_from(lines, i + 1, end)
    } else {
        proof {
            lemma_change_end(lines, i, end);
        }
        let e = change_end(lines, i, end);
        both_v(run_rows_v(lines, i, e)) + pairs_from(lines, e, end)
    }
}

/// The pairs of lines of the first `k` hunks, in order.
pub open spec fn pairs_v(lines: Seq<LineV>, hunks: Seq<HunkV>, k: nat) -> Seq<(usize, usize)>
    decreases k,
{
    if k == 0 {
        Seq::empty()
    } else {
        pairs_v(lines, hunks, (k - 1) as nat) + pairs_from(
            lines,
            hunks[k - 1].start,
            hunks[k - 1].end,
        )
    }
}

/// For each line of a pair, the character indices that changed in it.
pub open spec fn intra_v(lines: Seq<LineV>, pairs: Seq<(usize, usize)>) -> Map<usize, Set<usize>>
    decreases pairs.len(),
{
    if pairs.len() == 0 {
        Map::empty()
    } else {
        let (l, r) = pairs.last();
        let sets = char_changes_sets_v(lines[l as int].content(), lines[r as int].content());
        intra_v(lines, pairs.drop_last()).insert(l, sets.0).insert(r, sets.1)
    }
}

/// Do two lines differ in whitespace only?
pub open spec fn ws_pair(lines: Seq<LineV>, l: usize, r: usize) -> bool {
    text::normalize_v(lines[l as int].content()) == text::normalize_v(lines[r as int].content())
}

/// The lines whose change is whitespace only.
pub open spec fn ws_only_v(lines: Seq<LineV>, pairs: Seq<(usize, usize)>) -> Set<usize>
    decreases pairs.len(),
{
    if pairs.len() == 0 {
        Set::empty()
    } else {
        let (l, r) = pairs.last();
        let before = ws_only_v(lines, pairs.drop_last());
        if ws_pair(lines, l, r) {
            before.insert(l).insert(r)
        } else {
            before
        }
    }
}

/// A map to machine sets as one to mathematical sets.
pub open spec fn intra_view(m: Map<usize, HashSet<usize>>) -> Map<usize, Set<usize>> {
    m.map_values(|s: HashSet<usize>| s@)
}

/// The hunks lie within the lines.
pub open spec fn hunks_within(lines: Seq<LineV>, hunks: Seq<HunkV>) -> bool {
    forall|k: int|
        0 <= k < hunks.len() ==> 0 <= (#[trigger] hunks[k]).start <= hunks[k].end <= lines.len()
}

/// Adds the pairs among `rows` to the two collections.
fn add_pairs(
    map: &mut HashMap<usize, HashSet<usize>>,
    ws_only: &mut HashSet<usize>,
    lines: &Vec<DiffLine>,
    rows: &Vec<(Option<usize>, Option<usize>)>,
    Ghost(done): Ghost<Seq<(usize, usize)>>,
)
    requires
        intra_view(old(map)@) == intra_v(lines.deep_view(), done),
        old(ws_only)@ == ws_only_v(lines.deep_view(), done),
        forall|k: int|
            0 <= k < rows@.len() ==> ((#[trigger] rows@[k]).0 matches Some(i) ==> i < lines@.len())
                && (rows@[k].1 matches Some(i) ==> i < lines@.len()),
    ensures
        intra_view(final(map)@) == intra_v(lines.deep_view(), done + both_v(rows@)),
        final(ws_only)@ == ws_only_v(lines.deep_view(), done + both_v(rows@)),
        marks::pairs_diffed(lines.deep_view(), done) ==> marks::pairs_diffed(
            lines.deep_view(),
            done + both_v(rows@),
        ),
{
    let ghost ls = lines.deep_view();
    let mut k: usize = 0;
    assert(done + both_v(rows@.take(0)) =~= done);
    while k < rows.len()
        invariant
            k <= rows@.len(),
            ls == lines.deep_view(),
            forall|k: int|
                0 <= k < rows@.len() ==> ((#[trigger] rows@[k]).0 matches Some(i) ==> i
                    < lines@.len()) && (rows@[k].1 matches Some(i) ==> i < lines@.len()),
            intra_view(map@) == intra_v(ls, done + both_v(rows@.take(k as int))),
            ws_only@ == ws_only_v(ls, done + both_v(rows@.take(k as int))),
            marks::pairs_diffed(ls, done) ==> marks::pairs_diffed(
                ls,
                done + both_v(rows@.take(k as int)),
            ),
        decreases rows@.len() - k,
    {
        let ghost pairs = done + both_v(rows@.take(k as int));
        let ghost map1 = map@;
        assert(rows@.take(k + 1).drop_last() =~= rows@.take(k as int));
        let (l, r) = rows[k];
        assert(rows@[k as int] == (l, r));
        if let (Some(l), Some(r)) = (l, r) {
            let ghost next = done + both_v(rows@.take(k + 1));
            assert(next =~= pairs.push((l, r)));
            assert(next.drop_last() =~= pairs);
            assert(ls[l as int] == lines@[l as int].deep_view());
            assert(ls[r as int] == lines@[r as int].deep_view());
            let lc = lines[l].content();
            let rc = lines[r].content();
            let (lo, ro) = char_changes(lc, rc);
            assert(marks::pairs_diffed(ls, pairs) ==> marks::pairs_diffed(ls, next)) by {
                assert(next[next.len() - 1] == (l, r));
                assert forall|j: int| #![trigger next[j]] 0 <= j < next.len() - 1 implies next[j]
                    == pairs[j] by {}
            }
            map.insert(l, lo);
            map.insert(r, ro);
            assert(intra_view(map@) =~= intra_view(map1).insert(l, lo@).insert(r, ro@));
            let a = normalize_line(lc);
            let b = normalize_line(rc);
            if same(a.as_str(), b.as_str()) {
                ws_only.insert(l);
                ws_only.insert(r);
            }
            assert(ws_only@ =~= ws_only_v(ls, next));
        }
        k = k + 1;
    }
    assert(rows@.take(rows@.len() as int) =~= rows@);
}

/// For every pair of a removed and an added line: the characters that changed in each, and the
/// lines whose change is whitespace only.
pub fn compute_intra(doc: &FileDiff) -> (r: (HashMap<usize, HashSet<usize>>, HashSet<usize>))
    requires
        hunks_within(doc.deep_view().lines, doc.deep_view().hunks),
    ensures
        ({
            let d = doc.deep_view();
            let pairs = pairs_v(d.lines, d.hunks, d.hunks.len());
            &&& intra_view(r.0@) == intra_v(d.lines, pairs)
            &&& r.1@ == ws_only_v(d.lines, pairs)
            &&& coverage::laid_out(d) ==> marks::pairs_marked(d.lines, pairs, intra_view(r.0@))
        }),
{
    let ghost d = doc.deep_view();
    let lines = &doc.lines;
    let mut map: HashMap<usize, HashSet<usize>> = HashMap::new();
    let mut ws_only: HashSet<usize> = HashSet::new();
    let mut k: usize = 0;
    assert(intra_view(map@) =~= Map::empty());
    assert(ws_only@ =~= Set::empty());
    while k < doc.hunks.len()
        invariant
            k <= doc.hunks@.len(),
            d == doc.deep_view(),
            lines == &doc.lines,
            hunks_within(d.lines, d.hunks),
            intra_view(map@) == intra_v(d.lines, pairs_v(d.lines, d.hunks, k as nat)),
            ws_only@ == ws_only_v(d.lines, pairs_v(d.lines, d.hunks, k as nat)),
            marks::pairs_diffed(d.lines, pairs_v(d.lines, d.hunks, k as nat)),
        decreases doc.hunks@.len() - k,
    {
        let ghost before = pairs_v(d.lines, d.hunks, k as nat);
        let ghost h = d.hunks[k as int];
        assert(h == doc.hunks@[k as int].deep_view());
        let start: usize = doc.hunks[k].line_range.start;
        let end: usize = doc.hunks[k].line_range.end;
        let ghost all = pairs_from(d.lines, start as int, end as int);
        let ghost mut done = before;
        let mut i: usize = start;
        assert(done + pairs_from(d.lines, i as int, end as int) =~= before + all);
        while i < end
            invariant
                start <= i <= end <= lines@.len(),
                d == doc.deep_view(),
                lines == &doc.lines,
                done + pairs_from(d.lines, i as int, end as int) =~= before + all,
                intra_view(map@) == intra_v(d.lines, done),
                ws_only@ == ws_only_v(d.lines, done),
                marks::pairs_diffed(d.lines, done),
            decreases end - i,
        {
            assert(d.lines[i as int] == lines@[i as int].deep_view());
            if !lines[i].is_change() {
                i = i + 1;
            } else {
                let run_start: usize = i;
                while i < end && lines[i].is_change()
                    invariant
                        run_start <= i <= end <= lines@.len(),
                        d == doc.deep_view(),
                        lines == &doc.lines,
                        run_start == i ==> d.lines[i as int].is_change() && i < end,
                        change_end(d.lines, run_start as int, end as int) == change_end(
                            d.lines,
                            i as int,
                            end as int,
                        ),
                    decreases end - i,
                {
                    assert(d.lines[i as int] == lines@[i as int].deep_view());
                    i = i + 1;
                }
                if i < end {
                    assert(d.lines[i as int] == lines@[i as int].deep_view());
                }
                let rows = run_rows(lines, run_start, i);
                add_pairs(&mut map, &mut ws_only, lines, &rows, Ghost(done));
                proof {
                    done = done + both_v(rows@);
                }
            }
        }
        assert(done =~= before + all);
        k = k + 1;
    }
    proof {
        if coverage::laid_out(d) {
            assert(doc.lines.len() == d.lines.len());
            marks::law_pairs(d);
            marks::lemma_pairs_marked(
                d.lines,
                pairs_v(d.lines, d.hunks, d.hunks.len()),
                0,
                d.lines.len() as int,
            );
        }
    }
    (map, ws_only)
}

} // verus!
