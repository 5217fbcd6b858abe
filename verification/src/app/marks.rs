//! What the marks on changed characters say, and which lines carry them.
use vstd::prelude::*;

use super::coverage;
use super::pairing;
use super::rows;
use super::rows::DisplayRow;
use crate::changes;
use crate::changes::{ChangeV, Tag};
use crate::git::model::{FileDiffV, LineV};
use crate::text;

verus! {

broadcast use vstd::seq_lib::group_seq_properties;

// ---- The marks of two texts ----

/// A text without the characters at the marked indices.
pub open spec fn without_v(s: Seq<char>, marked: Set<usize>) -> Seq<char>
    decreases s.len(),
{
    if s.len() == 0 {
        Seq::empty()
    } else if marked.contains((s.len() - 1) as usize) {
        without_v(s.drop_last(), marked)
    } else {
        without_v(s.drop_last(), marked).push(s.last())
    }
}

/// What a diff keeps, put together.
pub open spec fn kept_v(cs: Seq<ChangeV>) -> Seq<char>
    decreases cs.len(),
{
    if cs.len() == 0 {
        Seq::empty()
    } else if cs.last().tag == Tag::Equal {
        kept_v(cs.drop_last()) + cs.last().value
    } else {
        kept_v(cs.drop_last())
    }
}

/// The marks of an old and a new text lie within them, and what they leave is the same text.
pub open spec fn well_marked(
    old: Seq<char>,
    new: Seq<char>,
    deleted: Set<usize>,
    inserted: Set<usize>,
) -> bool {
    &&& forall|i: usize| #[trigger] deleted.contains(i) ==> i < old.len()
    &&& forall|i: usize| #[trigger] inserted.contains(i) ==> i < new.len()
    &&& without_v(old, deleted) == without_v(new, inserted)
}

/// A diff of two texts by characters: each side's characters in order, numbered.
pub open spec fn is_char_diff(cs: Seq<ChangeV>, old: Seq<char>, new: Seq<char>) -> bool {
    &&& changes::numbered(cs)
    &&& changes::old_values(cs) == old.map_values(|c: char| seq![c])
    &&& changes::new_values(cs) == new.map_values(|c: char| seq![c])
}

/// Of two changes on the old side, the earlier has the smaller index.
proof fn lemma_old_before(cs: Seq<ChangeV>, j: int, k: int)
    requires
        0 <= j < k <= cs.len(),
        cs[j].tag != Tag::Insert,
    ensures
        changes::old_values(cs.take(j)).len() < changes::old_values(cs.take(k)).len(),
{
    changes::lemma_side_lens(cs.take(k), j);
    assert(cs.take(k).take(j) =~= cs.take(j));
    assert(cs.take(k)[j] == cs[j]);
}

/// Of two changes on the new side, the earlier has the smaller index.
proof fn lemma_new_before(cs: Seq<ChangeV>, j: int, k: int)
    requires
        0 <= j < k <= cs.len(),
        cs[j].tag != Tag::Delete,
    ensures
        changes::new_values(cs.take(j)).len() < changes::new_values(cs.take(k)).len(),
{
    changes::lemma_side_lens(cs.take(k), j);
    assert(cs.take(k).take(j) =~= cs.take(j));
    assert(cs.take(k)[j] == cs[j]);
}

/// Through the first `k` changes, the unmarked characters of the old text are what is kept.
proof fn lemma_old_kept(cs: Seq<ChangeV>, old: Seq<char>, k: int)
    requires
        changes::numbered(cs),
        changes::old_values(cs) == old.map_values(|c: char| seq![c]),
        old.len() <= usize::MAX,
        0 <= k <= cs.len(),
    ensures
        changes::old_values(cs.take(k)).len() <= old.len(),
        without_v(
            old.take(changes::old_values(cs.take(k)).len() as int),
            pairing::deleted_v(cs),
        ) == kept_v(cs.take(k)),
    decreases k,
{
    changes::lemma_side_lens(cs, k);
    if k > 0 {
        let j = k - 1;
        let marked = pairing::deleted_v(cs);
        lemma_old_kept(cs, old, j);
        changes::lemma_side_lens(cs, j);
        assert(changes::placed(cs, j));
        assert(cs.take(k).drop_last() =~= cs.take(j));
        assert(cs.take(k).last() == cs[j]);
        let p = changes::old_values(cs.take(j)).len() as int;
        if cs[j].tag != Tag::Insert {
            assert(p < old.len());
            assert(cs[j].value == seq![old[p]]);
            assert(old.take(p + 1).drop_last() =~= old.take(p));
            assert(old.take(p + 1).last() == old[p]);
            if cs[j].tag == Tag::Delete {
                assert(cs[j].old_index == Some(p));
                assert(marked.contains(p as usize));
            } else {
                if marked.contains(p as usize) {
                    let d = choose|d: int|
                        0 <= d < cs.len() && (#[trigger] cs[d]).tag == Tag::Delete
                            && cs[d].old_index == Some(p as usize as int);
                    assert(changes::placed(cs, d));
                    if d < j {
                        lemma_old_before(cs, d, j);
                    } else if j < d {
                        lemma_old_before(cs, j, d);
                    }
                }
                assert(kept_v(cs.take(k)) =~= kept_v(cs.take(j)).push(old[p]));
            }
        }
    } else {
        assert(cs.take(0) =~= Seq::empty());
        assert(old.take(0) =~= Seq::empty());
    }
}

/// Through the first `k` changes, the unmarked characters of the new text are what is kept.
proof fn lemma_new_kept(cs: Seq<ChangeV>, new: Seq<char>, k: int)
    requires
        changes::numbered(cs),
        changes::new_values(cs) == new.map_values(|c: char| seq![c]),
        new.len() <= usize::MAX,
        0 <= k <= cs.len(),
    ensures
        changes::new_values(cs.take(k)).len() <= new.len(),
        without_v(
            new.take(changes::new_values(cs.take(k)).len() as int),
            pairing::inserted_v(cs),
        ) == kept_v(cs.take(k)),
    decreases k,
{
    changes::lemma_side_lens(cs, k);
    if k > 0 {
        let j = k - 1;
        let marked = pairing::inserted_v(cs);
        lemma_new_kept(cs, new, j);
        changes::lemma_side_lens(cs, j);
        assert(changes::placed(cs, j));
        assert(cs.take(k).drop_last() =~= cs.take(j));
        assert(cs.take(k).last() == cs[j]);
        let p = changes::new_values(cs.take(j)).len() as int;
        if cs[j].tag != Tag::Delete {
            assert(p < new.len());
            assert(cs[j].value == seq![new[p]]);
            assert(new.take(p + 1).drop_last() =~= new.take(p));
            assert(new.take(p + 1).last() == new[p]);
            if cs[j].tag == Tag::Insert {
                assert(cs[j].new_index == Some(p));
                assert(marked.contains(p as usize));
            } else {
                if marked.contains(p as usize) {
                    let d = choose|d: int|
                        0 <= d < cs.len() && (#[trigger] cs[d]).tag == Tag::Insert
                            && cs[d].new_index == Some(p as usize as int);
                    assert(changes::placed(cs, d));
                    if d < j {
                        lemma_new_before(cs, d, j);
                    } else if j < d {
                        lemma_new_before(cs, j, d);
                    }
                }
                assert(kept_v(cs.take(k)) =~= kept_v(cs.take(j)).push(new[p]));
            }
        }
    } else {
        assert(cs.take(0) =~= Seq::empty());
        assert(new.take(0) =~= Seq::empty());
    }
}

/// The marks on two texts are the difference between them: they lie within the texts, and without
/// the marked characters both texts read as what the diff keeps, no less.
pub proof fn law_marks(cs: Seq<ChangeV>, old: Seq<char>, new: Seq<char>)
    requires
        is_char_diff(cs, old, new),
        old.len() <= usize::MAX,
        new.len() <= usize::MAX,
    ensures
        well_marked(old, new, pairing::deleted_v(cs), pairing::inserted_v(cs)),
        without_v(old, pairing::deleted_v(cs)) == kept_v(cs),
        without_v(new, pairing::inserted_v(cs)) == kept_v(cs),
{
    let n = cs.len() as int;
    assert(cs.take(n) =~= cs);
    lemma_old_kept(cs, old, n);
    lemma_new_kept(cs, new, n);
    assert(old.take(old.len() as int) =~= old);
    assert(new.take(new.len() as int) =~= new);
    assert forall|i: usize| #[trigger] pairing::deleted_v(cs).contains(i) implies i < old.len() by {
        let d = choose|d: int|
            0 <= d < cs.len() && (#[trigger] cs[d]).tag == Tag::Delete && cs[d].old_index == Some(
                i as int,
            );
        assert(changes::placed(cs, d));
        changes::lemma_side_lens(cs, d);
    }
    assert forall|i: usize| #[trigger] pairing::inserted_v(cs).contains(i) implies i
        < new.len() by {
        let d = choose|d: int|
            0 <= d < cs.len() && (#[trigger] cs[d]).tag == Tag::Insert && cs[d].new_index == Some(
                i as int,
            );
        assert(changes::placed(cs, d));
        changes::lemma_side_lens(cs, d);
    }
}

/// A text has no more characters than bytes.
pub proof fn lemma_chars_in_bytes(s: Seq<char>)
    ensures
        s.len() <= text::byte_len_v(s),
    decreases s.len(),
{
    if s.len() > 0 {
        lemma_chars_in_bytes(s.drop_last());
        text::lemma_byte_len_push(s.drop_last(), s.last());
        assert(s.drop_last().push(s.last()) =~= s);
    }
}

/// The marks of a pair of lines: those of the difference between them, and none where either takes
/// more than 2000 bytes.
pub open spec fn marked_as(
    old: Seq<char>,
    new: Seq<char>,
    deleted: Set<usize>,
    inserted: Set<usize>,
) -> bool {
    if text::byte_len_v(old) > 2000 || text::byte_len_v(new) > 2000 {
        deleted == Set::<usize>::empty() && inserted == Set::<usize>::empty()
    } else {
        well_marked(old, new, deleted, inserted)
    }
}

/// The marks that a pair of lines gets are those of the difference between them.
pub proof fn law_marks_of_lines(old: Seq<char>, new: Seq<char>)
    requires
        is_char_diff(changes::char_changes_v(old, new), old, new),
    ensures
        ({
            let sets = pairing::char_changes_sets_v(old, new);
            marked_as(old, new, sets.0, sets.1)
        }),
{
    if text::byte_len_v(old) <= 2000 && text::byte_len_v(new) <= 2000 {
        lemma_chars_in_bytes(old);
        lemma_chars_in_bytes(new);
        law_marks(changes::char_changes_v(old, new), old, new);
    }
}

// ---- Which lines are paired ----

/// Every pair is a removed line with an added one, both from `lo` to `hi`.
pub open spec fn pairs_between(
    lines: Seq<LineV>,
    pairs: Seq<(usize, usize)>,
    lo: int,
    hi: int,
) -> bool {
    forall|k: int|
        #![trigger pairs[k]]
        0 <= k < pairs.len() ==> {
            &&& lo <= pairs[k].0 < hi
            &&& lo <= pairs[k].1 < hi
            &&& lines[pairs[k].0 as int] is Removed
            &&& lines[pairs[k].1 as int] is Added
        }
}

/// No line is in two pairs.
pub open spec fn apart(pairs: Seq<(usize, usize)>) -> bool {
    forall|a: int, b: int|
        #![trigger pairs[a], pairs[b]]
        0 <= a < b < pairs.len() ==> pairs[a].0 != pairs[b].0 && pairs[a].1 != pairs[b].1
}

/// Pairs of earlier and of later lines are apart.
proof fn lemma_pairs_add(
    lines: Seq<LineV>,
    a: Seq<(usize, usize)>,
    b: Seq<(usize, usize)>,
    lo: int,
    mid: int,
    hi: int,
)
    requires
        lo <= mid <= hi,
        pairs_between(lines, a, lo, mid),
        pairs_between(lines, b, mid, hi),
        apart(a),
        apart(b),
    ensures
        pairs_between(lines, a + b, lo, hi),
        apart(a + b),
{
    let all = a + b;
    assert forall|i: int, j: int|
        #![trigger all[i], all[j]]
        0 <= i < j < all.len() implies all[i].0 != all[j].0 && all[i].1 != all[j].1 by {
        if j < a.len() {
            assert(all[i] == a[i] && all[j] == a[j]);
        } else if i >= a.len() {
            assert(all[i] == b[i - a.len()] && all[j] == b[j - a.len()]);
        } else {
            assert(all[i] == a[i] && all[j] == b[j - a.len()]);
        }
    }
}

/// The pairs among rows are the rows with both sides, in order.
proof fn lemma_both(rows: Seq<(Option<usize>, Option<usize>)>)
    ensures
        forall|l: usize, r: usize| #[trigger]
            pairing::both_v(rows).contains((l, r)) <==> rows.contains((Some(l), Some(r))),
    decreases rows.len(),
{
    if rows.len() > 0 {
        let init = rows.drop_last();
        lemma_both(init);
        let before = pairing::both_v(init);
        let all = pairing::both_v(rows);
        assert forall|l: usize, r: usize| #[trigger] all.contains((l, r)) <==> rows.contains(
            (Some(l), Some(r)),
        ) by {
            assert(before.contains((l, r)) <==> init.contains((Some(l), Some(r))));
            assert(rows =~= init.push(rows.last()));
            if init.contains((Some(l), Some(r))) {
                let k = choose|k: int| 0 <= k < init.len() && init[k] == (Some(l), Some(r));
                assert(rows[k] == (Some(l), Some(r)));
                let m = choose|m: int| 0 <= m < before.len() && before[m] == (l, r);
                assert(all[m] == (l, r));
            }
            if rows.last() == (Some(l), Some(r)) {
                assert(rows[rows.len() - 1] == (Some(l), Some(r)));
                assert(all[all.len() - 1] == (l, r));
            }
            if all.contains((l, r)) {
                let m = choose|m: int| 0 <= m < all.len() && all[m] == (l, r);
                if m < before.len() {
                    assert(before[m] == (l, r));
                } else {
                    assert(rows.last() == (Some(l), Some(r)));
                }
            }
            if rows.contains((Some(l), Some(r))) {
                let k = choose|k: int| 0 <= k < rows.len() && rows[k] == (Some(l), Some(r));
                if k < init.len() {
                    assert(init[k] == (Some(l), Some(r)));
                }
            }
        }
    }
}

/// Where no side of the rows repeats, the pairs among them are apart.
proof fn lemma_both_apart(rows: Seq<(Option<usize>, Option<usize>)>)
    requires
        forall|a: int, b: int|
            #![trigger rows[a], rows[b]]
            0 <= a < b < rows.len() ==> (rows[a].0 is Some ==> rows[a].0 != rows[b].0) && (
            rows[a].1 is Some ==> rows[a].1 != rows[b].1),
    ensures
        apart(pairing::both_v(rows)),
    decreases rows.len(),
{
    if rows.len() > 0 {
        let init = rows.drop_last();
        lemma_both_apart(init);
        lemma_both(init);
        let before = pairing::both_v(init);
        let all = pairing::both_v(rows);
        assert forall|a: int, b: int|
            #![trigger all[a], all[b]]
            0 <= a < b < all.len() implies all[a].0 != all[b].0 && all[a].1 != all[b].1 by {
            if b < before.len() {
                assert(all[a] == before[a] && all[b] == before[b]);
            } else {
                assert(before.contains(before[a]));
                assert(before.contains((before[a].0, before[a].1)));
                let k = choose|k: int|
                    0 <= k < init.len() && init[k] == (Some(before[a].0), Some(before[a].1));
                assert(rows[k] == init[k]);
                assert(rows[rows.len() - 1] == rows.last());
            }
        }
    }
}

/// The pairs of a run of changes.
proof fn lemma_run_pairs(lines: Seq<LineV>, i: int, end: int)
    requires
        0 <= i <= end <= lines.len() <= usize::MAX,
        forall|j: int| i <= j < end ==> (#[trigger] lines[j]).is_change(),
    ensures
        pairs_between(lines, pairing::both_v(pairing::run_rows_v(lines, i, end)), i, end),
        apart(pairing::both_v(pairing::run_rows_v(lines, i, end))),
{
    let rows = pairing::run_rows_v(lines, i, end);
    let removed = pairing::old_side(lines, i, end);
    let added = pairing::new_side(lines, i, end);
    pairing::lemma_old_side(lines, i, end);
    pairing::lemma_new_side(lines, i, end);
    pairing::law_pairing_keeps_every_line(removed, added, lines);
    assert forall|a: int, b: int|
        #![trigger rows[a], rows[b]]
        0 <= a < b < rows.len() implies (rows[a].0 is Some ==> rows[a].0 != rows[b].0) && (
    rows[a].1 is Some ==> rows[a].1 != rows[b].1) by {
        if b < removed.len() {
            assert(rows[a].0 == Some(removed[a]) && rows[b].0 == Some(removed[b]));
        }
    }
    lemma_both_apart(rows);
    lemma_both(rows);
    let pairs = pairing::both_v(rows);
    assert forall|k: int| #![trigger pairs[k]] 0 <= k < pairs.len() implies {
        &&& i <= pairs[k].0 < end
        &&& i <= pairs[k].1 < end
        &&& lines[pairs[k].0 as int] is Removed
        &&& lines[pairs[k].1 as int] is Added
    } by {
        let (l, r) = pairs[k];
        assert(pairs.contains((l, r)));
        let m = choose|m: int| 0 <= m < rows.len() && rows[m] == (Some(l), Some(r));
        assert(m < removed.len());
        assert(removed.contains(removed[m]));
        assert(removed.contains(l));
        assert(added.contains(r));
        assert(lines[l as int].is_change());
        assert(lines[r as int].is_change());
    }
}

/// The pairs of the lines from `i` to `end`.
proof fn lemma_pairs_from(lines: Seq<LineV>, i: int, end: int)
    requires
        0 <= i <= end <= lines.len() <= usize::MAX,
    ensures
        pairs_between(lines, pairing::pairs_from(lines, i, end), i, end),
        apart(pairing::pairs_from(lines, i, end)),
    decreases end - i,
{
    if i < end {
        if !lines[i].is_change() {
            lemma_pairs_from(lines, i + 1, end);
        } else {
            pairing::lemma_change_end(lines, i, end);
            let e = pairing::change_end(lines, i, end);
            lemma_run_pairs(lines, i, e);
            lemma_pairs_from(lines, e, end);
            lemma_pairs_add(
                lines,
                pairing::both_v(pairing::run_rows_v(lines, i, e)),
                pairing::pairs_from(lines, e, end),
                i,
                e,
                end,
            );
        }
    }
}

/// The pairs of the first `k` hunks.
proof fn lemma_pairs_upto(doc: FileDiffV, k: nat)
    requires
        coverage::laid_out(doc),
        doc.lines.len() <= usize::MAX,
        k <= doc.hunks.len(),
    ensures
        pairs_between(
            doc.lines,
            pairing::pairs_v(doc.lines, doc.hunks, k),
            0,
            rows::gap_start(doc.hunks, k as int),
        ),
        apart(pairing::pairs_v(doc.lines, doc.hunks, k)),
    decreases k,
{
    if k > 0 {
        let p = (k - 1) as nat;
        lemma_pairs_upto(doc, p);
        let h = doc.hunks[k - 1];
        lemma_pairs_from(doc.lines, h.start, h.end);
        let before = rows::gap_start(doc.hunks, p as int);
        if p > 0 {
            assert(doc.hunks[p - 1].end <= doc.hunks[p as int].start);
        }
        assert(pairs_between(doc.lines, pairing::pairs_v(doc.lines, doc.hunks, p), 0, h.start));
        lemma_pairs_add(
            doc.lines,
            pairing::pairs_v(doc.lines, doc.hunks, p),
            pairing::pairs_from(doc.lines, h.start, h.end),
            0,
            h.start,
            h.end,
        );
    }
}

/// A pair is a removed line with an added one, and no line is in two pairs.
pub proof fn law_pairs(doc: FileDiffV)
    requires
        coverage::laid_out(doc),
        doc.lines.len() <= usize::MAX,
    ensures
        ({
            let pairs = pairing::pairs_v(doc.lines, doc.hunks, doc.hunks.len());
            pairs_between(doc.lines, pairs, 0, doc.lines.len() as int) && apart(pairs)
        }),
{
    lemma_pairs_upto(doc, doc.hunks.len());
}

// ---- Pairs and rows ----

/// Two lines that share a row of two columns.
pub open spec fn shared_row(l: usize, r: usize) -> DisplayRow {
    DisplayRow::SideLine { left: Some(l), right: Some(r) }
}

proof fn lemma_contains_add<A>(a: Seq<A>, b: Seq<A>, x: A)
    ensures
        (a + b).contains(x) <==> a.contains(x) || b.contains(x),
{
    let all = a + b;
    if a.contains(x) {
        let k = choose|k: int| 0 <= k < a.len() && a[k] == x;
        assert(all[k] == x);
    }
    if b.contains(x) {
        let k = choose|k: int| 0 <= k < b.len() && b[k] == x;
        assert(all[a.len() + k] == x);
    }
    if all.contains(x) {
        let k = choose|k: int| 0 <= k < all.len() && all[k] == x;
        if k < a.len() {
            assert(a[k] == x);
        } else {
            assert(b[k - a.len()] == x);
        }
    }
}

/// In the rows of a range of lines, two lines share a row exactly where they are a pair.
proof fn lemma_side_pairs(lines: Seq<LineV>, i: int, end: int, l: usize, r: usize)
    requires
        0 <= i <= end <= lines.len() <= usize::MAX,
        l != r,
    ensures
        pairing::pairs_from(lines, i, end).contains((l, r)) <==> rows::side_rows_v(
            lines,
            i,
            end,
        ).contains(shared_row(l, r)),
    decreases end - i,
{
    if i < end {
        if !lines[i].is_change() {
            lemma_side_pairs(lines, i + 1, end, l, r);
            let first = seq![rows::context_row_v(true, i)];
            lemma_contains_add(first, rows::side_rows_v(lines, i + 1, end), shared_row(l, r));
            if first.contains(shared_row(l, r)) {
                assert(first[0] == shared_row(l, r));
            }
        } else {
            pairing::lemma_change_end(lines, i, end);
            let e = pairing::change_end(lines, i, end);
            lemma_side_pairs(lines, e, end, l, r);
            let cells = pairing::run_rows_v(lines, i, e);
            let shown = rows::side_cells_v(cells);
            lemma_both(cells);
            lemma_contains_add(
                pairing::both_v(cells),
                pairing::pairs_from(lines, e, end),
                (l, r),
            );
            lemma_contains_add(shown, rows::side_rows_v(lines, e, end), shared_row(l, r));
            assert(pairing::both_v(cells).contains((l, r)) <==> cells.contains(
                (Some(l), Some(r)),
            ));
            if cells.contains((Some(l), Some(r))) {
                let k = choose|k: int| 0 <= k < cells.len() && cells[k] == (Some(l), Some(r));
                assert(shown[k] == shared_row(l, r));
            }
            if shown.contains(shared_row(l, r)) {
                let k = choose|k: int| 0 <= k < shown.len() && shown[k] == shared_row(l, r);
                assert(cells[k] == (Some(l), Some(r)));
            }
        }
    }
}

/// Lines between hunks share no row.
proof fn lemma_gap_pairs(expanded: Set<usize>, start: int, end: int, l: usize, r: usize)
    requires
        l != r,
    ensures
        !rows::gap_rows_v(expanded, true, start, end).contains(shared_row(l, r)),
{
    let gap = rows::gap_rows_v(expanded, true, start, end);
    if gap.contains(shared_row(l, r)) {
        let k = choose|k: int| 0 <= k < gap.len() && gap[k] == shared_row(l, r);
        if expanded.contains(start as usize) {
            assert(gap[k] == rows::context_row_v(true, start + k));
        }
    }
}

/// Through the first `k` hunks, two lines share a row exactly where they are a pair.
proof fn lemma_upto_pairs(doc: FileDiffV, expanded: Set<usize>, k: nat, l: usize, r: usize)
    requires
        coverage::laid_out(doc),
        doc.lines.len() <= usize::MAX,
        k <= doc.hunks.len(),
        l != r,
    ensures
        pairing::pairs_v(doc.lines, doc.hunks, k).contains((l, r)) <==> rows::rows_upto(
            doc,
            expanded,
            true,
            k,
        ).contains(shared_row(l, r)),
    decreases k,
{
    if k > 0 {
        let p = (k - 1) as nat;
        lemma_upto_pairs(doc, expanded, p, l, r);
        let h = doc.hunks[k - 1];
        let x = shared_row(l, r);
        let before = rows::rows_upto(doc, expanded, true, p);
        let start = rows::gap_start(doc.hunks, k - 1);
        let gap = rows::gap_rows_v(expanded, true, start, h.start);
        lemma_gap_pairs(expanded, start, h.start, l, r);
        lemma_contains_add(before, gap, x);
        let sep = DisplayRow::HunkSep { hunk: (k - 1) as usize };
        let one = seq![sep];
        assert((before + gap).push(sep) =~= before + gap + one);
        lemma_contains_add(before + gap, one, x);
        if one.contains(x) {
            assert(one[0] == x);
        }
        let body = rows::side_rows_v(doc.lines, h.start, h.end);
        lemma_side_pairs(doc.lines, h.start, h.end, l, r);
        lemma_contains_add(before + gap + one, body, x);
        lemma_contains_add(
            pairing::pairs_v(doc.lines, doc.hunks, p),
            pairing::pairs_from(doc.lines, h.start, h.end),
            (l, r),
        );
    }
}

/// Two different lines are a pair exactly where they share a row in two columns, whatever is
/// folded.
pub proof fn law_pairs_share_rows(doc: FileDiffV, expanded: Set<usize>, l: usize, r: usize)
    requires
        coverage::laid_out(doc),
        doc.lines.len() <= usize::MAX,
        l != r,
    ensures
        pairing::pairs_v(doc.lines, doc.hunks, doc.hunks.len()).contains((l, r))
            <==> rows::rows_v(doc, expanded, true).contains(shared_row(l, r)),
{
    let n = doc.hunks.len();
    lemma_upto_pairs(doc, expanded, n, l, r);
    let start = rows::gap_start(doc.hunks, n as int);
    let end = doc.lines.len() as int;
    lemma_gap_pairs(expanded, start, end, l, r);
    lemma_contains_add(
        rows::rows_upto(doc, expanded, true, n),
        rows::gap_rows_v(expanded, true, start, end),
        shared_row(l, r),
    );
}

// ---- The marks of a diff ----

/// The marks of a diff: each pair of lines carries its own, the removed line those of what went and
/// the added line those of what came; and no other line carries any.
pub open spec fn pairs_marked(
    lines: Seq<LineV>,
    pairs: Seq<(usize, usize)>,
    intra: Map<usize, Set<usize>>,
) -> bool {
    &&& forall|k: int|
        #![trigger pairs[k]]
        0 <= k < pairs.len() ==> {
            let (l, r) = pairs[k];
            &&& intra.contains_key(l)
            &&& intra.contains_key(r)
            &&& marked_as(lines[l as int].content(), lines[r as int].content(), intra[l], intra[r])
        }
    &&& forall|i: usize| #[trigger]
        intra.contains_key(i) ==> exists|k: int|
            0 <= k < pairs.len() && ((#[trigger] pairs[k]).0 == i || pairs[k].1 == i)
}

/// The marks of each pair are the difference between its lines.
pub open spec fn pairs_diffed(lines: Seq<LineV>, pairs: Seq<(usize, usize)>) -> bool {
    forall|k: int|
        #![trigger pairs[k]]
        0 <= k < pairs.len() ==> {
            let old = lines[pairs[k].0 as int].content();
            let new = lines[pairs[k].1 as int].content();
            let sets = pairing::char_changes_sets_v(old, new);
            marked_as(old, new, sets.0, sets.1)
        }
}

/// Where no line is in two pairs, each line keeps the marks of its pair.
pub proof fn lemma_pairs_marked(
    lines: Seq<LineV>,
    pairs: Seq<(usize, usize)>,
    lo: int,
    hi: int,
)
    requires
        pairs_between(lines, pairs, lo, hi),
        apart(pairs),
        pairs_diffed(lines, pairs),
    ensures
        pairs_marked(lines, pairs, pairing::intra_v(lines, pairs)),
    decreases pairs.len(),
{
    if pairs.len() > 0 {
        let init = pairs.drop_last();
        let m = pairing::intra_v(lines, init);
        let all = pairing::intra_v(lines, pairs);
        let n = pairs.len() - 1;
        assert forall|k: int|
            #![trigger init[k]]
            0 <= k < init.len() implies init[k] == pairs[k] by {}
        lemma_pairs_marked(lines, init, lo, hi);
        assert forall|k: int| #![trigger pairs[k]] 0 <= k < pairs.len() implies {
            let (l, r) = pairs[k];
            &&& all.contains_key(l)
            &&& all.contains_key(r)
            &&& marked_as(lines[l as int].content(), lines[r as int].content(), all[l], all[r])
        } by {
            let (l, r) = pairs[k];
            let (a, b) = pairs[n];
            assert(a != b);
            if k < n {
                assert(init[k] == pairs[k]);
                assert(l != a && r != b);
                assert(l != b) by {
                    assert(lines[l as int] is Removed);
                    assert(lines[b as int] is Added);
                }
                assert(r != a) by {
                    assert(lines[r as int] is Added);
                    assert(lines[a as int] is Removed);
                }
                assert(all[l] == m[l] && all[r] == m[r]);
            }
        }
        assert forall|i: usize| #[trigger] all.contains_key(i) implies exists|k: int|
            0 <= k < pairs.len() && ((#[trigger] pairs[k]).0 == i || pairs[k].1 == i) by {
            if m.contains_key(i) {
                let k = choose|k: int|
                    0 <= k < init.len() && ((#[trigger] init[k]).0 == i || init[k].1 == i);
                assert(pairs[k] == init[k]);
            } else {
                assert(pairs[n].0 == i || pairs[n].1 == i);
            }
        }
    }
}

/// In an opened diff the marks of every two lines that share a row lie each within its own line,
/// and what they leave of both lines is the same text; no line that has a row to itself, and no
/// unchanged one, is marked.
pub proof fn law_marks_tell_lines_apart(doc: FileDiffV)
    requires
        coverage::laid_out(doc),
        doc.lines.len() <= usize::MAX,
        forall|old: Seq<char>, new: Seq<char>| #[trigger]
            is_char_diff(changes::char_changes_v(old, new), old, new),
    ensures
        ({
            let pairs = pairing::pairs_v(doc.lines, doc.hunks, doc.hunks.len());
            pairs_marked(doc.lines, pairs, pairing::intra_v(doc.lines, pairs))
        }),
{
    let pairs = pairing::pairs_v(doc.lines, doc.hunks, doc.hunks.len());
    law_pairs(doc);
    assert forall|k: int| #![trigger pairs[k]] 0 <= k < pairs.len() implies {
        let old = doc.lines[pairs[k].0 as int].content();
        let new = doc.lines[pairs[k].1 as int].content();
        let sets = pairing::char_changes_sets_v(old, new);
        marked_as(old, new, sets.0, sets.1)
    } by {
        let old = doc.lines[pairs[k].0 as int].content();
        let new = doc.lines[pairs[k].1 as int].content();
        assert(is_char_diff(changes::char_changes_v(old, new), old, new));
        law_marks_of_lines(old, new);
    }
    lemma_pairs_marked(doc.lines, pairs, 0, doc.lines.len() as int);
}

/// A line's change is whitespace only exactly where it is in a pair whose lines have the same
/// words.
pub proof fn law_whitespace_only(lines: Seq<LineV>, pairs: Seq<(usize, usize)>, i: usize)
    ensures
        pairing::ws_only_v(lines, pairs).contains(i) <==> exists|k: int|
            0 <= k < pairs.len() && ((#[trigger] pairs[k]).0 == i || pairs[k].1 == i)
                && text::words_v(lines[pairs[k].0 as int].content()) == text::words_v(
                lines[pairs[k].1 as int].content(),
            ),
    decreases pairs.len(),
{
    if pairs.len() > 0 {
        let init = pairs.drop_last();
        law_whitespace_only(lines, init, i);
        let n = pairs.len() - 1;
        let (l, r) = pairs[n];
        text::law_normalize_same(lines[l as int].content(), lines[r as int].content());
        if pairing::ws_only_v(lines, init).contains(i) {
            let k = choose|k: int|
                0 <= k < init.len() && ((#[trigger] init[k]).0 == i || init[k].1 == i)
                    && text::words_v(lines[init[k].0 as int].content()) == text::words_v(
                    lines[init[k].1 as int].content(),
                );
            assert(pairs[k] == init[k]);
        }
        if pairing::ws_only_v(lines, pairs).contains(i) && !pairing::ws_only_v(
            lines,
            init,
        ).contains(i) {
            assert(pairs[n].0 == i || pairs[n].1 == i);
        }
        if exists|k: int|
            0 <= k < pairs.len() && ((#[trigger] pairs[k]).0 == i || pairs[k].1 == i)
                && text::words_v(lines[pairs[k].0 as int].content()) == text::words_v(
                lines[pairs[k].1 as int].content(),
            ) {
            let k = choose|k: int|
                0 <= k < pairs.len() && ((#[trigger] pairs[k]).0 == i || pairs[k].1 == i)
                    && text::words_v(lines[pairs[k].0 as int].content()) == text::words_v(
                    lines[pairs[k].1 as int].content(),
                );
            if k < n {
                assert(init[k] == pairs[k]);
            }
        }
    }
}

// ---- Which lines are put side by side ----

/// Among the first `m` added lines that may be paired, if any, there is a most similar one, and a
/// first such.
proof fn lemma_best(r: Seq<char>, cands: Seq<Seq<char>>, used: Set<int>, m: int) -> (best: Option<
    int,
>)
    requires
        0 <= m <= cands.len(),
    ensures
        best is None ==> forall|j: int| 0 <= j < m ==> !pairing::eligible(r, cands, used, j),
        best matches Some(i) ==> 0 <= i < m && pairing::eligible(r, cands, used, i) && forall|j: int|
            0 <= j < m && #[trigger] pairing::eligible(r, cands, used, j) ==> pairing::similarity_v(
                r,
                cands[j],
            ) < pairing::similarity_v(r, cands[i]) || (pairing::similarity_v(r, cands[j])
                == pairing::similarity_v(r, cands[i]) && i <= j),
    decreases m,
{
    if m == 0 {
        None
    } else {
        let before = lemma_best(r, cands, used, m - 1);
        if !pairing::eligible(r, cands, used, m - 1) {
            before
        } else {
            match before {
                None => Some(m - 1),
                Some(i) => if pairing::similarity_v(r, cands[m - 1]) > pairing::similarity_v(
                    r,
                    cands[i],
                ) {
                    Some(m - 1)
                } else {
                    Some(i)
                },
            }
        }
    }
}

/// A removed line is paired with the first of the most similar added lines that are left, and with
/// none only where none is similar enough.
proof fn lemma_picked(r: Seq<char>, cands: Seq<Seq<char>>, used: Set<int>)
    ensures
        pairing::pick_v(r, cands, used) is None ==> forall|j: int|
            !#[trigger] pairing::eligible(r, cands, used, j),
        pairing::pick_v(r, cands, used) matches Some(i) ==> pairing::is_pick(r, cands, used, i),
{
    if pairing::pick_v(r, cands, used) is None {
        let best = lemma_best(r, cands, used, cands.len() as int);
        if let Some(i) = best {
            assert(pairing::is_pick(r, cands, used, i));
        }
    }
}

proof fn lemma_picks_before(rs: Seq<Seq<char>>, cands: Seq<Seq<char>>, i: nat, k: nat)
    requires
        i <= k,
    ensures
        pairing::picks_v(rs, cands, k).len() == k,
        pairing::picks_v(rs, cands, k).take(i as int) == pairing::picks_v(rs, cands, i),
    decreases k,
{
    if i < k {
        lemma_picks_before(rs, cands, i, (k - 1) as nat);
        assert(pairing::picks_v(rs, cands, k).take(i as int) =~= pairing::picks_v(
            rs,
            cands,
            (k - 1) as nat,
        ).take(i as int));
    } else {
        if k > 0 {
            lemma_picks_before(rs, cands, (k - 1) as nat, (k - 1) as nat);
        }
        assert(pairing::picks_v(rs, cands, k).take(i as int) =~= pairing::picks_v(rs, cands, i));
    }
}

/// In a block of at most 400 lines each removed line in turn is put beside the most similar added
/// line that no earlier one has: more than half of their characters agree, and no line that is left
/// is more similar. It stands alone only where no line that is left is that similar.
pub proof fn law_most_similar(
    removed: Seq<usize>,
    added: Seq<usize>,
    lines: Seq<LineV>,
    i: int,
    b: int,
)
    requires
        0 < added.len(),
        removed.len() + added.len() <= 400,
        added.no_duplicates(),
        0 <= i < removed.len(),
        0 <= b < added.len(),
        forall|j: int|
            0 <= j < i ==> (#[trigger] pairing::pair_changes_v(removed, added, lines)[j]).1 != Some(
                added[b],
            ),
    ensures
        ({
            let rows = pairing::pair_changes_v(removed, added, lines);
            let near = |x: usize|
                pairing::similarity_v(
                    lines[removed[i] as int].content(),
                    lines[x as int].content(),
                );
            &&& rows[i].0 == Some(removed[i])
            &&& rows[i].1 matches Some(a) ==> near(a) > 0x3f00_0000 && near(added[b]) <= near(a)
            &&& rows[i].1 is None ==> near(added[b]) <= 0x3f00_0000
        }),
{
    let rs = pairing::texts_at(lines, removed);
    let cands = pairing::texts_at(lines, added);
    let picks = pairing::picks_v(rs, cands, removed.len());
    let rows = pairing::pair_changes_v(removed, added, lines);
    lemma_picks_before(rs, cands, i as nat, removed.len());
    lemma_picks_before(rs, cands, (i + 1) as nat, removed.len());
    lemma_picks_before(rs, cands, i as nat, i as nat);
    let before = pairing::picks_v(rs, cands, i as nat);
    assert(picks[i] == picks.take(i + 1)[i]);
    assert(picks[i] == pairing::pick_v(rs[i], cands, pairing::taken(before)));
    lemma_picked(rs[i], cands, pairing::taken(before));
    assert(rows[i] == pairing::paired_rows(removed, added, picks)[i]);
    assert(!pairing::taken(before).contains(b)) by {
        if before.contains(Some(b)) {
            let j = choose|j: int| 0 <= j < before.len() && before[j] == Some(b);
            assert(picks[j] == picks.take(i)[j]);
            assert(rows[j] == pairing::paired_rows(removed, added, picks)[j]);
            assert(rows[j].1 == Some(added[b]));
        }
    }
    assert(cands[b] == lines[added[b] as int].content());
    assert(rs[i] == lines[removed[i] as int].content());
    if pairing::similarity_v(rs[i], cands[b]) > 0x3f00_0000 {
        assert(pairing::eligible(rs[i], cands, pairing::taken(before), b));
    }
    if let Some(a) = picks[i] {
        assert(pairing::is_pick(rs[i], cands, pairing::taken(before), a));
        assert(pairing::eligible(rs[i], cands, pairing::taken(before), a));
        assert(cands[a] == lines[added[a] as int].content());
    }
}

/// The lines of a larger block are not compared: the removed ones stand alone, then the added ones.
pub proof fn law_large_blocks(removed: Seq<usize>, added: Seq<usize>, lines: Seq<LineV>, i: int)
    requires
        removed.len() + added.len() > 400,
        0 <= i < removed.len() + added.len(),
    ensures
        pairing::pair_changes_v(removed, added, lines).len() == removed.len() + added.len(),
        pairing::pair_changes_v(removed, added, lines)[i] == (if i < removed.len() {
            (Some(removed[i]), None)
        } else {
            (None, Some(added[i - removed.len()]))
        }),
{
}

/// Equal texts are as similar as can be, and any others by how much of their characters agree.
pub proof fn law_similarity(a: Seq<char>, b: Seq<char>)
    ensures
        pairing::similarity_v(a, a) == 0x3f80_0000,
        a != b ==> pairing::similarity_v(a, b) == changes::ratio_bits_v(a, b),
{
}

} // verus!
