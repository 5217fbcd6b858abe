//! What holds of the changes that are read.
use vstd::prelude::*;

use super::diff;
use super::model;
use super::model::{CommitV, FileStatus, FileV, HunkV, LineV, Special};
use super::{EntryKind, EntryV};
use crate::order;
use crate::path;

verus! {

broadcast use vstd::seq_lib::group_seq_properties;

// ---- Files ----

/// A NUL among the first 8000 bytes.
pub open spec fn has_nul(data: Option<Seq<u8>>) -> bool {
    data matches Some(b) && exists|i: int|
        0 <= i < b.len() && i < 8000 && #[trigger] b[i] == 0u8
}

/// What a changed entry becomes: nothing where it is a directory; else a file with its path, status
/// and ids. A submodule has no contents; a file is binary, with the size of each side, where a side
/// has a NUL early on; and any other counts the lines that its diff shows as added and removed.
pub proof fn law_changed_files(e: EntryV, old_data: Option<Seq<u8>>, new_data: Option<Seq<u8>>)
    requires
        old_data matches Some(b) ==> b.len() <= u64::MAX,
        new_data matches Some(b) ==> b.len() <= u64::MAX,
        super::change_to_file_v(e, old_data, new_data) matches Some(f)
            ==> diff::added_v(super::load_file_diff_v(f, old_data, new_data, 3, false).lines)
            <= usize::MAX && diff::removed_v(
            super::load_file_diff_v(f, old_data, new_data, 3, false).lines,
        ) <= usize::MAX,
    ensures
        super::change_to_file_v(e, old_data, new_data) is None <==> e.kind == EntryKind::Tree,
        super::change_to_file_v(e, old_data, new_data) matches Some(f) ==> {
            let shown = super::load_file_diff_v(f, old_data, new_data, 3, false).lines;
            let binary = has_nul(old_data) || has_nul(new_data);
            &&& f.path == e.path && f.old_path == e.old_path && f.status == e.status
            &&& f.old_id == e.old_id && f.new_id == e.new_id
            &&& f.special is Submodule <==> e.kind == EntryKind::Commit
            &&& f.special is Binary <==> e.kind != EntryKind::Commit && binary
            &&& f.special is Symlink <==> e.kind == EntryKind::Link && !binary
            &&& f.special matches Special::Binary { old_size, new_size } ==> {
                &&& old_size == (match old_data {
                    Some(b) => b.len() as int,
                    None => 0,
                })
                &&& new_size == (match new_data {
                    Some(b) => b.len() as int,
                    None => 0,
                })
                &&& shown.len() == 0
            }
            &&& f.special is Submodule || f.special is Binary ==> f.additions == 0 && f.deletions
                == 0
            &&& f.special is Plain || f.special is Symlink ==> f.additions == diff::added_v(shown)
                && f.deletions == diff::removed_v(shown)
        },
{
    let a = super::read_blob_v(old_data);
    let b = super::read_blob_v(new_data);
    diff::law_diff_shows_its_counts(a.text, b.text, 3);
    assert(a.is_binary <==> has_nul(old_data));
    assert(b.is_binary <==> has_nul(new_data));
}

/// Two versions of a plain file whose sides have the same words line by line are known by the same
/// hash, and so are two versions of a submodule with the same ids.
pub proof fn law_hashes_follow_contents(
    e: EntryV,
    other: EntryV,
    old_data: Option<Seq<u8>>,
    new_data: Option<Seq<u8>>,
    other_old: Option<Seq<u8>>,
    other_new: Option<Seq<u8>>,
)
    requires
        e.path == other.path,
        e.kind == other.kind,
    ensures
        super::change_to_file_v(e, old_data, new_data) matches Some(f) ==> (
        super::change_to_file_v(other, other_old, other_new) matches Some(g) ==> {
            &&& f.special is Plain && g.special is Plain && diff::line_words_v(
                super::read_blob_v(old_data).text,
            ) == diff::line_words_v(super::read_blob_v(other_old).text) && diff::line_words_v(
                super::read_blob_v(new_data).text,
            ) == diff::line_words_v(super::read_blob_v(other_new).text) ==> f.content_hash
                == g.content_hash
            &&& f.special is Submodule && e.old_id == other.old_id && e.new_id == other.new_id
                ==> f.content_hash == g.content_hash
        }),
{
    let a = super::read_blob_v(old_data).text;
    let b = super::read_blob_v(new_data).text;
    let c = super::read_blob_v(other_old).text;
    let d = super::read_blob_v(other_new).text;
    if diff::line_words_v(a) == diff::line_words_v(c) && diff::line_words_v(b)
        == diff::line_words_v(d) {
        diff::law_whitespace_edit_keeps_hash(e.path, a, b, d);
        diff::law_whitespace_edit_keeps_hash(e.path, d, a, c);
        diff::law_whitespace_edit_keeps_hash(e.path, d, c, a);
    }
}

/// A working-tree change is none where both sides are the same; else its status tells which sides
/// there are.
pub proof fn law_working_changes(
    path: Seq<char>,
    kind: EntryKind,
    old_id: Option<Seq<u8>>,
    new_id: Option<Seq<u8>>,
)
    ensures
        super::working_change_v(path, kind, old_id, new_id) is None <==> old_id == new_id,
        super::working_change_v(path, kind, old_id, new_id) matches Some(e) ==> {
            &&& e.path == path && e.kind == kind && e.old_path is None
            &&& e.old_id == old_id && e.new_id == new_id
            &&& e.status == FileStatus::Added <==> e.old_id is None
            &&& e.status == FileStatus::Deleted <==> e.new_id is None
            &&& e.status == FileStatus::Modified <==> e.old_id is Some && e.new_id is Some
        },
{
}

/// The diff of a submodule shows the commit of each side that there is, the old one removed and the
/// new one added, in one hunk.
pub proof fn law_submodule_diff(old_id: Option<Seq<u8>>, new_id: Option<Seq<u8>>)
    ensures
        ({
            let d = super::subproject_diff_v(old_id, new_id);
            &&& diff::old_contents(d.lines) == (match old_id {
                Some(id) => seq!["Subproject commit "@ + model::hex_bytes_v(id)],
                None => Seq::empty(),
            })
            &&& diff::new_contents(d.lines) == (match new_id {
                Some(id) => seq!["Subproject commit "@ + model::hex_bytes_v(id)],
                None => Seq::empty(),
            })
            &&& forall|i: int| 0 <= i < d.lines.len() ==> (#[trigger] d.lines[i]).is_change()
            &&& diff::lines_numbered(d.lines)
            &&& d.hunks.len() == 1
            &&& d.hunks[0].start == 0 && d.hunks[0].end == d.lines.len()
            &&& d.hunks[0].old_lines == diff::old_contents(d.lines).len()
            &&& d.hunks[0].new_lines == diff::new_contents(d.lines).len()
            &&& d.hunks[0].old_start == 1 && d.hunks[0].new_start == 1
        }),
{
    let lines = super::subproject_lines_v(old_id, new_id);
    reveal_with_fuel(diff::old_contents, 3);
    reveal_with_fuel(diff::new_contents, 3);
    assert(lines.take(0) =~= Seq::empty());
    if lines.len() > 0 {
        assert(lines.take(1) =~= seq![lines[0]]);
        assert(seq![lines[0]].drop_last() =~= Seq::empty());
    }
    if lines.len() == 2 {
        assert(lines.drop_last() =~= seq![lines[0]]);
    } else if lines.len() == 1 {
        assert(lines.drop_last() =~= Seq::empty());
    }
    assert(diff::old_contents(lines) =~= (match old_id {
        Some(id) => seq!["Subproject commit "@ + model::hex_bytes_v(id)],
        None => Seq::empty(),
    }));
    assert(diff::new_contents(lines) =~= (match new_id {
        Some(id) => seq!["Subproject commit "@ + model::hex_bytes_v(id)],
        None => Seq::empty(),
    }));
    assert forall|k: int| 0 <= k < lines.len() implies #[trigger] diff::line_placed(lines, k) by {
        assert(lines.take(k) =~= Seq::empty() || lines.take(k) =~= seq![lines[0]]);
    }
}

/// The hexadecimal form of an id has two digits for each byte, in order, and tells ids apart.
pub proof fn law_hex_bytes(bytes: Seq<u8>, i: int)
    requires
        0 <= i < bytes.len(),
    ensures
        model::hex_bytes_v(bytes).len() == 2 * bytes.len(),
        crate::text::value_v(model::hex_bytes_v(bytes).subrange(2 * i, 2 * i + 2), 16) == Some(
            bytes[i] as int,
        ),
    decreases bytes.len(),
{
    let init = bytes.drop_last();
    let b = bytes.last();
    assert(vstd::arithmetic::power::pow(16, 2) == 256) by {
        reveal_with_fuel(vstd::arithmetic::power::pow, 3);
    }
    crate::text::lemma_hex_value(b as nat, 2);
    let all = model::hex_bytes_v(bytes);
    let before = model::hex_bytes_v(init);
    if init.len() > 0 {
        law_hex_bytes(init, if i < init.len() {
            i
        } else {
            0
        });
    }
    if i < init.len() {
        assert(all.subrange(2 * i, 2 * i + 2) =~= before.subrange(2 * i, 2 * i + 2));
        assert(init[i] == bytes[i]);
    } else {
        assert(all.subrange(2 * i, 2 * i + 2) =~= crate::text::hex_v(b as nat, 2));
    }
}

/// Sorting files keeps every file, and puts none before one whose path comes first.
pub proof fn law_sorted_files(files: Seq<FileV>)
    requires
        files.len() <= usize::MAX,
    ensures
        ({
            let r = super::sort_files_v(files);
            &&& r.len() == files.len()
            &&& r.to_multiset() == files.to_multiset()
            &&& forall|i: int, j: int|
                0 <= i < j < r.len() ==> order::key_le(
                    path::path_key_v((#[trigger] r[i]).path),
                    path::path_key_v((#[trigger] r[j]).path),
                )
        }),
{
    let keys = super::path_keys_v(files);
    let items = order::upto(files.len());
    let at = order::sort_v(items, keys);
    let r = super::sort_files_v(files);
    order::law_sort(items, keys);
    assert forall|i: int| 0 <= i < at.len() implies #[trigger] at[i] < files.len() by {
        assert(at.contains(at[i]));
        assert(items.contains(at[i]));
    }
    assert forall|i: int, j: int| 0 <= i < j < r.len() implies order::key_le(
        path::path_key_v((#[trigger] r[i]).path),
        path::path_key_v((#[trigger] r[j]).path),
    ) by {
        assert(order::key_le(keys[at[i] as int], keys[at[j] as int]));
    }
    order::lemma_pick_multiset(files, at);
}

// ---- Commits ----

/// Of the commits of a range the first ten thousand are listed, in order.
pub proof fn law_listed_commits(commits: Seq<CommitV>)
    ensures
        super::capped_v(commits).is_prefix_of(commits),
        super::capped_v(commits).len() == (if commits.len() <= 10_000 {
            commits.len()
        } else {
            10_000
        }),
{
}

/// The default branch is what the remote's head points to where that resolves, else `main`, else
/// `master`.
pub proof fn law_default_branches(remote_head: Option<Seq<char>>)
    ensures
        ({
            let names = super::default_candidates_v(remote_head);
            &&& remote_head matches Some(name) ==> names[0] == name && names.len() == 3
            &&& remote_head is None ==> names.len() == 2
            &&& names[names.len() - 2] == "main"@
            &&& names[names.len() - 1] == "master"@
        }),
{
}

// ---- Totals ----

/// The totals of a changeset are the sums over its files: of no file nothing, of one file its own
/// count, and of two lists the sum of theirs.
pub proof fn law_totals(a: Seq<FileV>, b: Seq<FileV>, f: FileV)
    ensures
        model::additions_v(Seq::empty()) == 0,
        model::deletions_v(Seq::empty()) == 0,
        model::additions_v(seq![f]) == f.additions,
        model::deletions_v(seq![f]) == f.deletions,
        model::additions_v(a + b) == model::additions_v(a) + model::additions_v(b),
        model::deletions_v(a + b) == model::deletions_v(a) + model::deletions_v(b),
    decreases b.len(),
{
    reveal_with_fuel(model::additions_v, 2);
    reveal_with_fuel(model::deletions_v, 2);
    assert(seq![f].drop_last() =~= Seq::empty());
    if b.len() > 0 {
        law_totals(a, b.drop_last(), f);
        assert((a + b).drop_last() =~= a + b.drop_last());
        assert((a + b).last() == b.last());
    } else {
        assert(a + b =~= a);
    }
}

/// Each status has a letter of its own, and is worth a note unless the file was only modified.
pub proof fn law_status_letters(s: FileStatus, t: FileStatus)
    ensures
        s.letter_v() == t.letter_v() ==> s == t,
        s.annotation_v() is None <==> s == FileStatus::Modified,
        s.annotation_v() == t.annotation_v() ==> s == t,
        s.letter_v() == (match s {
            FileStatus::Added => 'A',
            FileStatus::Modified => 'M',
            FileStatus::Deleted => 'D',
            FileStatus::Renamed => 'R',
            FileStatus::Copied => 'C',
        }),
{
    reveal_strlit("new");
    reveal_strlit("deleted");
    reveal_strlit("renamed");
    reveal_strlit("copied");
    assert("renamed"@[0] == 'r');
    assert("deleted"@[0] == 'd');
    assert("copied"@[0] == 'c');
    assert("new"@[0] == 'n');
}

// ---- The row that names a hunk ----

proof fn lemma_first_change(lines: Seq<LineV>, i: int, end: int)
    requires
        0 <= i <= end <= lines.len(),
    ensures
        i <= model::first_change_v(lines, i, end) <= end,
        forall|j: int|
            i <= j < model::first_change_v(lines, i, end) ==> !(#[trigger] lines[j]).is_change(),
        model::first_change_v(lines, i, end) < end ==> lines[model::first_change_v(
            lines,
            i,
            end,
        )].is_change(),
    decreases end - i,
{
    if i < end && !lines[i].is_change() {
        lemma_first_change(lines, i + 1, end);
    }
}

/// The row of the new text at which a hunk is named: that of the line right before its first
/// change, or, where it starts with a change, that which the change is at.
pub proof fn law_hunk_rows(lines: Seq<LineV>, h: HunkV, k: int)
    requires
        diff::lines_numbered(lines),
        diff::headed(lines, h),
        0 <= h.start <= k < h.end <= lines.len(),
        lines[k].is_change(),
        forall|j: int| h.start <= j < k ==> !(#[trigger] lines[j]).is_change(),
    ensures
        ({
            let before = diff::new_contents(lines.take(k)).len() as int;
            model::hunk_context_row_v(lines, h) == (if k > h.start {
                before - 1
            } else if lines[k] is Removed && h.new_lines == 0 {
                0
            } else {
                before
            })
        }),
{
    lemma_first_change(lines, h.start, h.end);
    let m = model::first_change_v(lines, h.start, h.end);
    if m < k {
        assert(lines[m].is_change());
    }
    assert(m == k) by {
        if m > k {
            assert(!lines[k].is_change());
        }
    }
    assert(diff::line_placed(lines, k));
    if k > h.start {
        assert(diff::line_placed(lines, k - 1));
        assert(lines.take(k).drop_last() =~= lines.take(k - 1));
        assert(lines.take(k).last() == lines[k - 1]);
    }
}

// ---- The texts of a file ----

/// A file has the text of each side, as far as it is there and its bytes are text; a binary file and
/// a submodule have none.
pub proof fn law_file_texts(f: FileV, old: Option<Seq<u8>>, new: Option<Seq<u8>>)
    ensures
        ({
            let (a, b) = super::file_texts_v(f, old, new);
            &&& f.special is Binary || f.special is Submodule ==> a.len() == 0 && b.len() == 0
            &&& f.special is Plain || f.special is Symlink ==> {
                &&& old matches Some(x) ==> (!has_nul(old) ==> a == crate::text::lossy_v(x))
                &&& new matches Some(x) ==> (!has_nul(new) ==> b == crate::text::lossy_v(x))
                &&& old is None || has_nul(old) ==> a.len() == 0
                &&& new is None || has_nul(new) ==> b.len() == 0
            }
        }),
{
    assert(super::read_blob_v(old).is_binary <==> has_nul(old));
    assert(super::read_blob_v(new).is_binary <==> has_nul(new));
}

} // verus!
