//! The list of files on the overview: its order, its filter and its cursor.
use std::collections::HashSet;
use vstd::prelude::*;

use crate::order;
use crate::path;
use crate::text;
use crate::util;
use crate::git::model::{FileChange, FileStatus, FileV};
use crate::order::sort_by_keys;
use crate::path::push_path_key;
use crate::text::{contains, to_lowercase};
use crate::util::moved;

verus! {

broadcast use {vstd::seq_lib::group_seq_properties, vstd::std_specs::hash::group_hash_axioms};

/// What the files are sorted by.
#[derive(Clone, Copy, PartialEq, Eq, Debug, Structural)]
pub enum SortMode {
    Size,
    Path,
    Status,
}

impl SortMode {
    /// The word for an order.
    pub open spec fn label_v(self) -> Seq<char> {
        match self {
            SortMode::Size => "size"@,
            SortMode::Path => "path"@,
            SortMode::Status => "status"@,
        }
    }

    /// The order after another.
    pub open spec fn next_v(self) -> SortMode {
        match self {
            SortMode::Size => SortMode::Path,
            SortMode::Path => SortMode::Status,
            SortMode::Status => SortMode::Size,
        }
    }

    pub fn label(self) -> (r: &'static str)
        ensures
            r@ == self.label_v(),
    {
        match self {
            SortMode::Size => "size",
            SortMode::Path => "path",
            SortMode::Status => "status",
        }
    }

    pub fn next(self) -> (r: SortMode)
        ensures
            r == self.next_v(),
    {
        match self {
            SortMode::Size => SortMode::Path,
            SortMode::Path => SortMode::Status,
            SortMode::Status => SortMode::Size,
        }
    }
}

/// Cycling through the orders visits each and comes back.
pub proof fn law_sort_cycle(s: SortMode)
    ensures
        s.next_v().next_v().next_v() == s,
        s.next_v() != s,
        s.next_v().next_v() != s,
{
}

/// The state of the overview.
pub struct Overview {
    /// The highlighted row, as an index into `order`.
    pub selected: usize,
    /// The first visible row.
    pub offset: usize,
    pub sort: SortMode,
    /// What the files are filtered by; empty for no filter.
    pub filter: String,
    /// Is the filter being typed?
    pub filtering: bool,
    /// The files that are listed, in order, as indices into the changeset.
    pub order: Vec<usize>,
    /// The files that are marked, as indices into the changeset.
    pub marked: HashSet<usize>,
    /// How many rows were visible when the list was last drawn.
    pub viewport_rows: usize,
}

/// The mathematical value of an [`Overview`].
#[verifier::ext_equal]
pub ghost struct OverviewV {
    pub selected: int,
    pub offset: int,
    pub sort: SortMode,
    pub filter: Seq<char>,
    pub filtering: bool,
    pub order: Seq<usize>,
    pub marked: Set<usize>,
    pub viewport_rows: int,
}

impl DeepView for Overview {
    type V = OverviewV;

    open spec fn deep_view(&self) -> OverviewV {
        OverviewV {
            selected: self.selected as int,
            offset: self.offset as int,
            sort: self.sort,
            filter: self.filter@,
            filtering: self.filtering,
            order: self.order@,
            marked: self.marked@,
            viewport_rows: self.viewport_rows as int,
        }
    }
}

// ---- Order ----

/// Where a status stands in the order by status.
pub open spec fn status_rank_v(s: FileStatus) -> u64 {
    match s {
        FileStatus::Added => 0,
        FileStatus::Modified => 1,
        FileStatus::Renamed => 2,
        FileStatus::Copied => 3,
        FileStatus::Deleted => 4,
    }
}

/// Where a status stands in the order by status.
pub fn status_rank(s: FileStatus) -> (r: u64)
    ensures
        r == status_rank_v(s),
{
    match s {
        FileStatus::Added => 0,
        FileStatus::Modified => 1,
        FileStatus::Renamed => 2,
        FileStatus::Copied => 3,
        FileStatus::Deleted => 4,
    }
}

/// The key that a file is sorted by: its size (the largest first) or its status comes before the
/// path.
pub open spec fn file_key_v(sort: SortMode, f: FileV) -> Seq<u64> {
    match sort {
        SortMode::Size => seq![(u64::MAX - (f.additions + f.deletions)) as u64] + path::path_key_v(f.path),
        SortMode::Path => path::path_key_v(f.path),
        SortMode::Status => seq![status_rank_v(f.status)] + path::path_key_v(f.path),
    }
}

/// The keys that files are sorted by.
pub open spec fn file_keys_v(sort: SortMode, files: Seq<FileV>) -> Seq<Seq<u64>> {
    files.map_values(|f: FileV| file_key_v(sort, f))
}

/// Does a file pass the filter, which is in lower case?
pub open spec fn passes_v(f: FileV, filter: Seq<char>) -> bool {
    filter.len() == 0 || text::contains_v(text::lowercase(f.path), filter)
}

/// Those of the first `k` files that pass the filter.
pub open spec fn passing_v(files: Seq<FileV>, filter: Seq<char>, k: nat) -> Seq<usize>
    decreases k,
{
    if k == 0 {
        Seq::empty()
    } else {
        let before = passing_v(files, filter, (k - 1) as nat);
        if passes_v(files[k - 1], filter) {
            before.push((k - 1) as usize)
        } else {
            before
        }
    }
}

/// The files that are listed, in order.
pub open spec fn order_v(files: Seq<FileV>, sort: SortMode, filter: Seq<char>) -> Seq<usize> {
    order::sort_v(passing_v(files, text::lowercase(filter), files.len()), file_keys_v(sort, files))
}

proof fn lemma_passing(files: Seq<FileV>, filter: Seq<char>, k: nat)
    requires
        k <= files.len() <= usize::MAX,
    ensures
        passing_v(files, filter, k).no_duplicates(),
        forall|x: usize| #[trigger]
            passing_v(files, filter, k).contains(x) <==> x < k && passes_v(files[x as int], filter),
    decreases k,
{
    if k > 0 {
        lemma_passing(files, filter, (k - 1) as nat);
        let before = passing_v(files, filter, (k - 1) as nat);
        let all = passing_v(files, filter, k);
        assert(!before.contains((k - 1) as usize));
        assert forall|x: usize| #[trigger] all.contains(x) <==> x < k && passes_v(
            files[x as int],
            filter,
        ) by {
            assert(before.contains(x) <==> x < k - 1 && passes_v(files[x as int], filter));
            if before.contains(x) {
                let i = choose|i: int| 0 <= i < before.len() && before[i] == x;
                assert(all[i] == x);
            }
            if x == k - 1 && passes_v(files[x as int], filter) {
                assert(all[all.len() - 1] == x);
            }
        }
        assert forall|a: int, b: int| 0 <= a < b < all.len() implies all[a] != all[b] by {
            if b == before.len() {
                assert(before.contains(before[a]));
            }
        }
    }
}

/// The list holds the files that pass the filter, each once, in the order of their keys.
pub proof fn law_order(files: Seq<FileV>, sort: SortMode, filter: Seq<char>)
    requires
        files.len() <= usize::MAX,
    ensures
        order_v(files, sort, filter).no_duplicates(),
        forall|x: usize| #[trigger]
            order_v(files, sort, filter).contains(x) <==> x < files.len() && passes_v(
                files[x as int],
                text::lowercase(filter),
            ),
        crate::order::sorted(order_v(files, sort, filter), file_keys_v(sort, files)),
        order::keyed(order_v(files, sort, filter), files.len()),
{
    let items = passing_v(files, text::lowercase(filter), files.len());
    let keys = file_keys_v(sort, files);
    lemma_passing(files, text::lowercase(filter), files.len());
    crate::order::law_sort(items, keys);
    crate::order::lemma_sort_no_duplicates(items, keys);
    let order = order_v(files, sort, filter);
    assert forall|x: usize| #[trigger] order.contains(x) <==> x < files.len() && passes_v(
        files[x as int],
        text::lowercase(filter),
    ) by {
        assert(order.contains(x) <==> items.contains(x));
    }
    assert forall|k: int| 0 <= k < order.len() implies #[trigger] order[k] < files.len() by {
        assert(order.contains(order[k]));
    }
}

/// The key that a file is sorted by.
fn file_key(sort: SortMode, f: &FileChange) -> (r: Vec<u64>)
    requires
        f.additions + f.deletions <= usize::MAX,
    ensures
        r@ == file_key_v(sort, f.deep_view()),
{
    let mut key: Vec<u64> = Vec::new();
    match sort {
        SortMode::Size => {
            let churn: usize = f.additions + f.deletions;
            key.push(u64::MAX - churn as u64);
        },
        SortMode::Path => {},
        SortMode::Status => {
            key.push(status_rank(f.status));
        },
    }
    push_path_key(&mut key, f.path.as_str());
    assert(key@ =~= file_key_v(sort, f.deep_view()));
    key
}

/// The lines of each file can be counted.
pub open spec fn each_fits(files: Seq<FileV>) -> bool {
    forall|i: int|
        0 <= i < files.len() ==> (#[trigger] files[i]).additions + files[i].deletions <= usize::MAX
}

/// The files that pass the filter, in the order of their keys.
pub fn order_files(files: &Vec<FileChange>, sort: SortMode, filter: &str) -> (r: Vec<usize>)
    requires
        each_fits(files.deep_view()),
    ensures
        r@ == order_v(files.deep_view(), sort, filter@),
        order::keyed(r@, files@.len()),
{
    let ghost fs = files.deep_view();
    let filter = to_lowercase(filter);
    let mut shown: Vec<usize> = Vec::new();
    let mut keys: Vec<Vec<u64>> = Vec::new();
    let mut i: usize = 0;
    while i < files.len()
        invariant
            i <= files@.len(),
            fs == files.deep_view(),
            each_fits(fs),
            shown@ == passing_v(fs, filter@, i as nat),
            order::keyed(shown@, i as nat),
            keys.deep_view() =~= file_keys_v(sort, fs).take(i as int),
        decreases files@.len() - i,
    {
        assert(fs[i as int] == files@[i as int].deep_view());
        if filter.as_str().is_empty() {
            shown.push(i);
        } else {
            let lower = to_lowercase(files[i].path.as_str());
            if contains(lower.as_str(), filter.as_str()) {
                shown.push(i);
            }
        }
        let ghost before = keys.deep_view();
        let key = file_key(sort, &files[i]);
        assert(key.deep_view() =~= key@);
        keys.push(key);
        assert(keys.deep_view() =~= before.push(file_key_v(sort, fs[i as int])));
        i = i + 1;
    }
    assert(keys.deep_view() =~= file_keys_v(sort, fs));
    sort_by_keys(&shown, &keys)
}

// ---- Cursor ----

impl OverviewV {
    /// The files that are listed exist, none is listed twice, and the cursor is on one of them;
    /// the marked files exist.
    pub open spec fn wf(self, n: nat) -> bool {
        &&& order::keyed(self.order, n)
        &&& self.order.no_duplicates()
        &&& self.selected < self.order.len() || self.selected == 0
        &&& forall|x: usize| #[trigger] self.marked.contains(x) ==> x < n
    }

    /// The file under the cursor.
    pub open spec fn selected_file(self) -> Option<usize> {
        if 0 <= self.selected < self.order.len() {
            Some(self.order[self.selected])
        } else {
            None
        }
    }

    /// With the cursor moved by `delta` rows.
    pub open spec fn moved_by(self, delta: int) -> OverviewV {
        if self.order.len() == 0 {
            self
        } else {
            OverviewV {
                selected: util::clamp_v(self.selected + delta, 0, self.order.len() - 1),
                ..self
            }
        }
    }

    /// With the cursor on a row, or on the last.
    pub open spec fn moved_to(self, row: int) -> OverviewV {
        if self.order.len() == 0 {
            self
        } else {
            OverviewV {
                selected: if row < self.order.len() {
                    row
                } else {
                    self.order.len() - 1
                },
                ..self
            }
        }
    }

    /// With the files listed anew, and the cursor kept on a row.
    pub open spec fn reordered(self, files: Seq<FileV>) -> OverviewV {
        let order = order_v(files, self.sort, self.filter);
        OverviewV {
            order,
            selected: if self.selected < order.len() {
                self.selected
            } else if order.len() > 0 {
                order.len() - 1
            } else {
                0
            },
            ..self
        }
    }

    /// With the cursor on a file, where it is listed.
    pub open spec fn on_file(self, file: usize) -> OverviewV {
        if self.order.contains(file) {
            OverviewV { selected: self.order.index_of(file), ..self }
        } else {
            self
        }
    }

    /// Sorted by the next key, with the cursor on the same file.
    pub open spec fn resorted(self, files: Seq<FileV>) -> OverviewV {
        let next = (OverviewV { sort: self.sort.next_v(), ..self }).reordered(files);
        match self.selected_file() {
            Some(f) => next.on_file(f),
            None => next,
        }
    }

    /// With the mark of the file under the cursor toggled.
    pub open spec fn mark_toggled(self) -> OverviewV {
        match self.selected_file() {
            Some(f) => OverviewV {
                marked: if self.marked.contains(f) {
                    self.marked.remove(f)
                } else {
                    self.marked.insert(f)
                },
                ..self
            },
            None => self,
        }
    }

    /// The files that an action applies to: the marked ones, else the one under the cursor.
    pub open spec fn targets(self) -> Set<usize> {
        if self.marked.is_empty() {
            match self.selected_file() {
                Some(f) => Set::empty().insert(f),
                None => Set::empty(),
            }
        } else {
            self.marked
        }
    }
}

impl Overview {
    /// The file under the cursor, as an index into the changeset.
    pub fn selected_file(&self) -> (r: Option<usize>)
        ensures
            r == self.deep_view().selected_file(),
    {
        if self.selected < self.order.len() {
            Some(self.order[self.selected])
        } else {
            None
        }
    }

    /// Moves the cursor by `delta` rows, within the list.
    pub fn move_by(&mut self, delta: isize)
        ensures
            final(self).deep_view() == old(self).deep_view().moved_by(delta as int),
    {
        if self.order.len() > 0 {
            self.selected = moved(self.selected, delta, self.order.len() - 1);
        }
    }

    /// Moves the cursor to a row, or to the last.
    pub fn move_to(&mut self, row: usize)
        ensures
            final(self).deep_view() == old(self).deep_view().moved_to(row as int),
    {
        if self.order.len() > 0 {
            self.selected = if row < self.order.len() {
                row
            } else {
                self.order.len() - 1
            };
        }
    }

    /// Lists the files anew by the sort order and the filter, and keeps the cursor on a row.
    pub fn reorder(&mut self, files: &Vec<FileChange>)
        requires
            each_fits(files.deep_view()),
        ensures
            final(self).deep_view() == old(self).deep_view().reordered(files.deep_view()),
    {
        let order = order_files(files, self.sort, self.filter.as_str());
        if self.selected >= order.len() {
            self.selected = if order.len() > 0 {
                order.len() - 1
            } else {
                0
            };
        }
        self.order = order;
    }

    /// The row of a file, where it is listed.
    pub fn row_of(&self, file: usize) -> (r: Option<usize>)
        requires
            self.order@.no_duplicates(),
        ensures
            r is Some == self.order@.contains(file),
            r matches Some(p) ==> p < self.order@.len() && p == self.order@.index_of(file),
    {
        let mut i: usize = 0;
        while i < self.order.len()
            invariant
                i <= self.order@.len(),
                self.order@.no_duplicates(),
                forall|j: int| 0 <= j < i ==> #[trigger] self.order@[j] != file,
            decreases self.order@.len() - i,
        {
            if self.order[i] == file {
                return Some(i);
            }
            i = i + 1;
        }
        None
    }

    /// Sorts by the next key and keeps the cursor on the same file.
    pub fn cycle_sort(&mut self, files: &Vec<FileChange>)
        requires
            each_fits(files.deep_view()),
        ensures
            final(self).deep_view() == old(self).deep_view().resorted(files.deep_view()),
    {
        let current = self.selected_file();
        self.sort = self.sort.next();
        self.reorder(files);
        if let Some(f) = current {
            let count: usize = files.len();
            proof {
                law_order(files.deep_view(), self.sort, self.filter@);
            }
            let row = self.row_of(f);
            if let Some(p) = row {
                self.selected = p;
            }
        }
    }

    /// Marks the file under the cursor, or takes its mark off.
    pub fn toggle_mark(&mut self)
        ensures
            final(self).deep_view() == old(self).deep_view().mark_toggled(),
    {
        let current = self.selected_file();
        if let Some(f) = current {
            if !self.marked.insert(f) {
                self.marked.remove(&f);
            }
        }
    }

    /// The files that an action applies to: the marked ones, else the one under the cursor.
    pub fn targets(&self) -> (r: Vec<usize>)
        ensures
            r@.to_set() == self.deep_view().targets(),
            r@.no_duplicates(),
    {
        let mut out: Vec<usize> = Vec::new();
        if self.marked.is_empty() {
            assert(self.marked@ =~= Set::empty());
            if let Some(f) = self.selected_file() {
                out.push(f);
                assert(out@.to_set() =~= Set::empty().insert(f)) by {
                    assert(out@[0] == f);
                }
            }
            return out;
        }
        for f in it: self.marked.iter()
            invariant
                it.seq().unref().to_set() == self.marked@,
                it.seq().no_duplicates(),
                out@ =~= it.seq().unref().take(it.index() as int),
        {
            out.push(*f);
        }
        assert(out@.to_set() =~= self.marked@);
        out
    }
}

/// Moving the cursor, listing the files anew and marking keep the list in order.
pub proof fn law_overview_stays_valid(ov: OverviewV, files: Seq<FileV>, delta: int, row: int)
    requires
        ov.wf(files.len()),
        ov.selected >= 0,
        files.len() <= usize::MAX,
        row >= 0,
    ensures
        ov.moved_by(delta).wf(files.len()),
        ov.moved_to(row).wf(files.len()),
        ov.reordered(files).wf(files.len()),
        ov.resorted(files).wf(files.len()),
        ov.mark_toggled().wf(files.len()),
{
    law_order(files, ov.sort, ov.filter);
    law_order(files, ov.sort.next_v(), ov.filter);
}

/// Marking a file twice leaves the marks as they were.
pub proof fn law_mark_toggles(ov: OverviewV)
    ensures
        ov.mark_toggled().mark_toggled() == ov,
{
    if let Some(f) = ov.selected_file() {
        assert(ov.mark_toggled().mark_toggled().marked =~= ov.marked);
    }
}

/// Sorting by another key keeps the cursor on the same file.
pub proof fn law_sorting_keeps_selection(ov: OverviewV, files: Seq<FileV>)
    requires
        ov.wf(files.len()),
        ov.order == order_v(files, ov.sort, ov.filter),
        files.len() <= usize::MAX,
    ensures
        ov.resorted(files).selected_file() == ov.selected_file(),
{
    law_order(files, ov.sort, ov.filter);
    law_order(files, ov.sort.next_v(), ov.filter);
    if let Some(f) = ov.selected_file() {
        assert(ov.order.contains(f));
        let next = order_v(files, ov.sort.next_v(), ov.filter);
        assert(next.contains(f));
    }
}

// ---- What the list shows ----

/// Of two listed files the earlier one: by size has no fewer changed lines; by path comes first; by
/// status is of the same or an earlier kind, where added files come before modified, renamed,
/// copied and deleted ones. Where that leaves it open, the path decides.
pub proof fn law_listed_in_order(
    files: Seq<FileV>,
    sort: SortMode,
    filter: Seq<char>,
    i: int,
    j: int,
)
    requires
        files.len() <= usize::MAX,
        each_fits(files),
        0 <= i < j < order_v(files, sort, filter).len(),
    ensures
        ({
            let a = files[order_v(files, sort, filter)[i] as int];
            let b = files[order_v(files, sort, filter)[j] as int];
            let by_path = crate::order::key_le(path::path_key_v(a.path), path::path_key_v(b.path));
            let rank = |s: FileStatus|
                match s {
                    FileStatus::Added => 1int,
                    FileStatus::Modified => 2,
                    FileStatus::Renamed => 3,
                    FileStatus::Copied => 4,
                    FileStatus::Deleted => 5,
                };
            match sort {
                SortMode::Size => {
                    &&& a.additions + a.deletions >= b.additions + b.deletions
                    &&& a.additions + a.deletions == b.additions + b.deletions ==> by_path
                },
                SortMode::Path => by_path,
                SortMode::Status => {
                    &&& rank(a.status) <= rank(b.status)
                    &&& a.status == b.status ==> by_path
                },
            }
        }),
{
    law_order(files, sort, filter);
    let at = order_v(files, sort, filter);
    let keys = file_keys_v(sort, files);
    assert(crate::order::key_le(keys[at[i] as int], keys[at[j] as int]));
    assert(at[i] < files.len() && at[j] < files.len());
    let a = files[at[i] as int];
    let b = files[at[j] as int];
    let x = file_key_v(sort, a);
    let y = file_key_v(sort, b);
    assert(crate::order::key_le(x, y));
    assert(a.additions + a.deletions <= usize::MAX);
    assert(b.additions + b.deletions <= usize::MAX);
    match sort {
        SortMode::Path => {},
        _ => {
            assert(x.drop_first() =~= path::path_key_v(a.path));
            assert(y.drop_first() =~= path::path_key_v(b.path));
        },
    }
}

/// A file is listed where its path in small letters holds the filter in small letters; without a
/// filter every file is.
pub proof fn law_filter(files: Seq<FileV>, sort: SortMode, filter: Seq<char>, x: usize)
    requires
        files.len() <= usize::MAX,
        x < files.len(),
    ensures
        order_v(files, sort, filter).contains(x) ==> text::lowercase(filter).len() == 0 || exists|
            k: int,
        |
            0 <= k <= text::lowercase(files[x as int].path).len() - text::lowercase(filter).len()
                && text::lowercase(filter) == #[trigger] text::lowercase(
                files[x as int].path,
            ).subrange(k, k + text::lowercase(filter).len()),
        text::lowercase(filter).len() == 0 ==> order_v(files, sort, filter).contains(x),
        (exists|a: Seq<char>, b: Seq<char>|
            text::lowercase(files[x as int].path) == #[trigger] (a + text::lowercase(filter) + b))
            ==> order_v(files, sort, filter).contains(x),
{
    let needle = text::lowercase(filter);
    let hay = text::lowercase(files[x as int].path);
    law_order(files, sort, filter);
    text::law_contains(hay, needle, Seq::empty());
    assert(order_v(files, sort, filter).contains(x) <==> passes_v(files[x as int], needle));
    if exists|a: Seq<char>, b: Seq<char>| hay == #[trigger] (a + needle + b) {
        let (a, b) = choose|a: Seq<char>, b: Seq<char>| hay == #[trigger] (a + needle + b);
        text::law_contains(a, needle, b);
    }
}

/// The selection moves by as many rows as asked for, but stays in the list; and it goes to the row
/// asked for, or to the last one.
pub proof fn law_selection_moves(ov: OverviewV, delta: int, row: int)
    requires
        0 <= ov.selected < ov.order.len(),
        row >= 0,
    ensures
        ({
            let n = ov.order.len() as int;
            &&& 0 <= ov.selected + delta < n ==> ov.moved_by(delta).selected == ov.selected + delta
            &&& ov.selected + delta < 0 ==> ov.moved_by(delta).selected == 0
            &&& ov.selected + delta >= n ==> ov.moved_by(delta).selected == n - 1
            &&& row < n ==> ov.moved_to(row).selected == row
            &&& row >= n ==> ov.moved_to(row).selected == n - 1
            &&& ov.moved_by(delta) == (OverviewV { selected: ov.moved_by(delta).selected, ..ov })
            &&& ov.moved_to(row) == (OverviewV { selected: ov.moved_to(row).selected, ..ov })
        }),
{
}

/// What an action is applied to: the marked files where there are any, else the selected one.
pub proof fn law_targets(ov: OverviewV, f: usize)
    requires
        0 <= ov.selected < ov.order.len(),
    ensures
        ov.marked == Set::<usize>::empty() ==> (ov.targets().contains(f) <==> f
            == ov.order[ov.selected]),
        ov.marked.contains(f) ==> ov.targets() == ov.marked,
        ov.mark_toggled().marked.contains(f) <==> (if f == ov.order[ov.selected] {
            !ov.marked.contains(f)
        } else {
            ov.marked.contains(f)
        }),
        ov.mark_toggled().selected == ov.selected,
{
}

/// Filtering again keeps the selected row where the list is long enough, else takes its last one;
/// it touches neither marks nor the way of sorting.
pub proof fn law_reordered(ov: OverviewV, files: Seq<FileV>)
    requires
        ov.selected >= 0,
    ensures
        ({
            let r = ov.reordered(files);
            &&& r.order == order_v(files, ov.sort, ov.filter)
            &&& ov.selected < r.order.len() ==> r.selected == ov.selected
            &&& ov.selected >= r.order.len() && r.order.len() > 0 ==> r.selected == r.order.len() - 1
            &&& r.order.len() == 0 ==> r.selected == 0
            &&& r.marked == ov.marked && r.sort == ov.sort && r.filter == ov.filter
        }),
        ov.resorted(files).sort == (match ov.sort {
            SortMode::Size => SortMode::Path,
            SortMode::Path => SortMode::Status,
            SortMode::Status => SortMode::Size,
        }),
{
}

} // verus!
