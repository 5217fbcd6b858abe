//! The rollup of file changes into groups for the overview: the groups of the configuration, or
//! the directories where there is none.
use vstd::prelude::*;
use vstd::string::*;

use crate::config;
use crate::git::model;
use crate::order;
use crate::path;
use crate::config::{Config, ConfigV, GroupPatternsV};
use crate::git::model::{FileChange, FileV};
use crate::order::{indices, sort_by_keys};
use crate::path::{parent, push_text_key};
use crate::text::same;

verus! {

broadcast use vstd::seq_lib::group_seq_properties;

/// One group of the rollup.
#[derive(Debug)]
pub struct Group {
    pub name: String,
    /// How many files count under the group.
    pub file_count: usize,
    pub additions: usize,
    pub deletions: usize,
}

/// The mathematical value of a [`Group`].
#[verifier::ext_equal]
pub ghost struct GroupV {
    pub name: Seq<char>,
    pub file_count: int,
    pub additions: int,
    pub deletions: int,
}

impl DeepView for Group {
    type V = GroupV;

    open spec fn deep_view(&self) -> GroupV {
        GroupV {
            name: self.name@,
            file_count: self.file_count as int,
            additions: self.additions as int,
            deletions: self.deletions as int,
        }
    }
}

impl GroupV {
    /// The lines that changed.
    pub open spec fn churn(self) -> int {
        self.additions + self.deletions
    }

    /// The group with one more file.
    pub open spec fn plus(self, f: FileV) -> GroupV {
        GroupV {
            name: self.name,
            file_count: self.file_count + 1,
            additions: self.additions + f.additions,
            deletions: self.deletions + f.deletions,
        }
    }

    /// A group without files.
    pub open spec fn empty(name: Seq<char>) -> GroupV {
        GroupV { name, file_count: 0, additions: 0, deletions: 0 }
    }
}

impl Group {
    /// A group without files.
    fn new(name: String) -> (r: Group)
        ensures
            r.deep_view() == GroupV::empty(name@),
    {
        Group { name, file_count: 0, additions: 0, deletions: 0 }
    }

    /// The lines that changed.
    pub fn churn(&self) -> (r: usize)
        requires
            self.deep_view().churn() <= usize::MAX,
        ensures
            r == self.deep_view().churn(),
    {
        self.additions + self.deletions
    }

    /// Counts one more file.
    fn count(&mut self, f: &FileChange)
        requires
            old(self).file_count < usize::MAX,
            old(self).additions + f.additions <= usize::MAX,
            old(self).deletions + f.deletions <= usize::MAX,
        ensures
            final(self).deep_view() == old(self).deep_view().plus(f.deep_view()),
    {
        self.file_count = self.file_count + 1;
        self.additions = self.additions + f.additions;
        self.deletions = self.deletions + f.deletions;
    }
}

impl Clone for Group {
    fn clone(&self) -> (r: Self)
        ensures
            r.deep_view() == self.deep_view(),
    {
        Group {
            name: self.name.clone(),
            file_count: self.file_count,
            additions: self.additions,
            deletions: self.deletions,
        }
    }
}

/// The rollup, and whether some file is in more than one group.
#[derive(Debug)]
pub struct Grouping {
    pub groups: Vec<Group>,
    pub from_config: bool,
    pub multi_group: bool,
}

/// The mathematical value of a [`Grouping`].
#[verifier::ext_equal]
pub ghost struct GroupingV {
    pub groups: Seq<GroupV>,
    pub from_config: bool,
    pub multi_group: bool,
}

impl DeepView for Grouping {
    type V = GroupingV;

    open spec fn deep_view(&self) -> GroupingV {
        GroupingV {
            groups: self.groups.deep_view(),
            from_config: self.from_config,
            multi_group: self.multi_group,
        }
    }
}

/// The lines of all files, added and deleted, can be counted.
pub open spec fn countable(files: Seq<FileV>) -> bool {
    model::additions_v(files) + model::deletions_v(files) <= usize::MAX
}

// ---- Sorting ----

/// Is the name that of the group for what fits nowhere else?
pub open spec fn is_catchall_v(name: Seq<char>) -> bool {
    name == "Other"@ || name == "(root)"@
}

fn is_catchall(name: &str) -> (r: bool)
    ensures
        r == is_catchall_v(name@),
{
    same(name, "Other") || same(name, "(root)")
}

/// The sort key of a group: the catch-all last, then larger churn first, then by name.
pub open spec fn group_key_v(g: GroupV) -> Seq<u64> {
    seq![
        if is_catchall_v(g.name) {
            1u64
        } else {
            0u64
        },
        (u64::MAX - g.churn()) as u64,
    ] + path::text_key_v(g.name)
}

/// The sort keys of groups.
pub open spec fn group_keys_v(groups: Seq<GroupV>) -> Seq<Seq<u64>> {
    groups.map_values(|g: GroupV| group_key_v(g))
}

/// The items at some indices.
pub open spec fn pick_v<A>(items: Seq<A>, order: Seq<usize>) -> Seq<A> {
    order.map_values(|i: usize| items[i as int])
}

/// Groups by churn, the largest first, then by name; the catch-all group comes last, so that it
/// does not head the list.
pub open spec fn sort_groups_v(groups: Seq<GroupV>) -> Seq<GroupV> {
    pick_v(groups, order::sort_v(order::upto(groups.len()), group_keys_v(groups)))
}

/// The churn of each group can be counted.
pub open spec fn churns_fit(groups: Seq<GroupV>) -> bool {
    forall|i: int| 0 <= i < groups.len() ==> (#[trigger] groups[i]).churn() <= usize::MAX
}

/// The groups are ranked: a group with more changed lines comes first, and the catch-all group last.
pub proof fn law_groups_are_ranked(groups: Seq<GroupV>, i: int, j: int)
    requires
        churns_fit(groups),
        forall|k: int| 0 <= k < groups.len() ==> (#[trigger] groups[k]).churn() >= 0,
        0 <= i < j < sort_groups_v(groups).len(),
    ensures
        is_catchall_v(sort_groups_v(groups)[i].name) ==> is_catchall_v(
            sort_groups_v(groups)[j].name,
        ),
        is_catchall_v(sort_groups_v(groups)[i].name) == is_catchall_v(
            sort_groups_v(groups)[j].name,
        ) ==> sort_groups_v(groups)[i].churn() >= sort_groups_v(groups)[j].churn(),
{
    let keys = group_keys_v(groups);
    let order = order::sort_v(order::upto(groups.len()), keys);
    order::law_sort(order::upto(groups.len()), keys);
    let (x, y) = (order[i], order[j]);
    assert(order.contains(x) && order.contains(y));
    assert(order::upto(groups.len()).contains(x) && order::upto(groups.len()).contains(y));
    let (g, h) = (groups[x as int], groups[y as int]);
    let (k, l) = (keys[x as int], keys[y as int]);
    assert(order::key_le(k, l));
    assert(k == group_key_v(g) && l == group_key_v(h));
    assert(k.drop_first()[0] == (u64::MAX - g.churn()) as u64);
    assert(l.drop_first()[0] == (u64::MAX - h.churn()) as u64);
    reveal_with_fuel(order::key_le, 2);
}

/// Sorts groups by churn, the largest first, then by name, the catch-all group last.
pub fn sort_groups(groups: Vec<Group>) -> (r: Vec<Group>)
    requires
        churns_fit(groups.deep_view()),
    ensures
        r.deep_view() == sort_groups_v(groups.deep_view()),
{
    let ghost gs = groups.deep_view();
    let mut keys: Vec<Vec<u64>> = Vec::new();
    let mut i: usize = 0;
    while i < groups.len()
        invariant
            i <= groups@.len(),
            gs == groups.deep_view(),
            churns_fit(gs),
            keys@.len() == i,
            keys.deep_view() =~= group_keys_v(gs).take(i as int),
        decreases groups@.len() - i,
    {
        let ghost before = keys.deep_view();
        let g = &groups[i];
        assert(gs[i as int] == g.deep_view());
        let mut key: Vec<u64> = Vec::new();
        key.push(
            if is_catchall(g.name.as_str()) {
                1
            } else {
                0
            },
        );
        key.push(u64::MAX - g.churn() as u64);
        push_text_key(&mut key, g.name.as_str());
        assert(key@ =~= group_key_v(gs[i as int]));
        assert(key.deep_view() =~= key@);
        keys.push(key);
        assert(keys.deep_view() =~= before.push(group_key_v(gs[i as int])));
        i = i + 1;
    }
    assert(group_keys_v(gs).take(gs.len() as int) =~= group_keys_v(gs));
    let items = indices(groups.len());
    let order = sort_by_keys(&items, &keys);
    let mut out: Vec<Group> = Vec::new();
    let mut k: usize = 0;
    while k < order.len()
        invariant
            k <= order@.len(),
            gs == groups.deep_view(),
            crate::order::keyed(order@, groups@.len()),
            out.deep_view() =~= pick_v(gs, order@).take(k as int),
        decreases order@.len() - k,
    {
        let ghost before = out.deep_view();
        assert(order@[k as int] < groups@.len());
        let g = groups[order[k]].clone();
        assert(gs[order@[k as int] as int] == groups@[order@[k as int] as int].deep_view());
        out.push(g);
        assert(out.deep_view() =~= before.push(g.deep_view()));
        k = k + 1;
    }
    assert(pick_v(gs, order@).take(order@.len() as int) =~= pick_v(gs, order@));
    out
}

/// The largest churn of the groups, zero where there are none.
pub open spec fn max_churn_v(groups: Seq<GroupV>) -> int
    decreases groups.len(),
{
    if groups.len() == 0 {
        0
    } else {
        let m = max_churn_v(groups.drop_last());
        if groups.last().churn() > m {
            groups.last().churn()
        } else {
            m
        }
    }
}

/// The largest churn of the groups, by which the bars are scaled.
pub fn max_churn(groups: &Vec<Group>) -> (r: usize)
    requires
        churns_fit(groups.deep_view()),
    ensures
        r == max_churn_v(groups.deep_view()),
{
    let ghost gs = groups.deep_view();
    let mut max: usize = 0;
    let mut i: usize = 0;
    while i < groups.len()
        invariant
            i <= groups@.len(),
            gs == groups.deep_view(),
            churns_fit(gs),
            max == max_churn_v(gs.take(i as int)),
        decreases groups@.len() - i,
    {
        assert(gs.take(i + 1).drop_last() =~= gs.take(i as int));
        assert(gs[i as int] == groups@[i as int].deep_view());
        let c: usize = groups[i].churn();
        if c > max {
            max = c;
        }
        i = i + 1;
    }
    assert(gs.take(gs.len() as int) =~= gs);
    max
}

/// What the largest churn is: none is larger, and one is as large where there are groups.
proof fn lemma_max_churn(groups: Seq<GroupV>)
    requires
        forall|k: int| 0 <= k < groups.len() ==> (#[trigger] groups[k]).churn() >= 0,
    ensures
        forall|k: int| 0 <= k < groups.len() ==> (#[trigger] groups[k]).churn() <= max_churn_v(groups),
        groups.len() > 0 ==> exists|k: int|
            0 <= k < groups.len() && (#[trigger] groups[k]).churn() == max_churn_v(groups),
    decreases groups.len(),
{
    if groups.len() > 0 {
        let t = groups.drop_last();
        lemma_max_churn(t);
        assert forall|k: int| 0 <= k < groups.len() implies (#[trigger] groups[k]).churn()
            <= max_churn_v(groups) by {
            if k < t.len() {
                assert(groups[k] == t[k]);
            }
        }
        if groups.last().churn() > max_churn_v(t) || t.len() == 0 {
            assert(groups[groups.len() - 1].churn() == max_churn_v(groups));
        } else {
            let k = choose|k: int| 0 <= k < t.len() && (#[trigger] t[k]).churn() == max_churn_v(t);
            assert(groups[k].churn() == max_churn_v(groups));
        }
    }
}

/// The largest churn bounds that of every group and is that of one, or zero where there are no
/// groups; sorting the groups keeps it.
pub proof fn law_max_churn(groups: Seq<GroupV>)
    requires
        groups.len() <= usize::MAX,
        forall|k: int| 0 <= k < groups.len() ==> (#[trigger] groups[k]).churn() >= 0,
    ensures
        forall|k: int| 0 <= k < groups.len() ==> (#[trigger] groups[k]).churn() <= max_churn_v(groups),
        groups.len() > 0 ==> exists|k: int|
            0 <= k < groups.len() && (#[trigger] groups[k]).churn() == max_churn_v(groups),
        groups.len() == 0 ==> max_churn_v(groups) == 0,
        max_churn_v(sort_groups_v(groups)) == max_churn_v(groups),
{
    let items = order::upto(groups.len());
    let order = order::sort_v(items, group_keys_v(groups));
    let sorted = sort_groups_v(groups);
    order::law_sort(items, group_keys_v(groups));
    assert forall|k: int| 0 <= k < sorted.len() implies #[trigger] sorted[k] == groups[order[k] as int]
        && order[k] < groups.len() by {
        assert(order.contains(order[k]));
        assert(items.contains(order[k]));
    }
    lemma_max_churn(groups);
    lemma_max_churn(sorted);
    if groups.len() > 0 {
        let k = choose|k: int|
            0 <= k < groups.len() && (#[trigger] groups[k]).churn() == max_churn_v(groups);
        assert(items[k] == k as usize);
        assert(items.contains(k as usize));
        assert(order.contains(k as usize));
        let j = choose|j: int| 0 <= j < order.len() && order[j] == k as usize;
        assert(sorted[j] == groups[k]);
    }
}

// ---- By directory ----

/// The directory that a path counts under.
pub open spec fn dir_of_v(path: Seq<char>) -> Seq<char> {
    match path::parent_v(path) {
        Some(p) => if p.len() > 0 {
            p
        } else {
            "(root)"@
        },
        None => "(root)"@,
    }
}

fn dir_of(path: &str) -> (r: String)
    ensures
        r@ == dir_of_v(path@),
{
    match parent(path) {
        Some(p) => {
            assert(path::parent_v(path@) == Some(p@));
            if p.as_str().is_empty() {
                "(root)".to_owned()
            } else {
                p
            }
        },
        None => "(root)".to_owned(),
    }
}

/// The index of the first group with a name, or the number of groups.
pub open spec fn find_group_v(groups: Seq<GroupV>, name: Seq<char>) -> int
    decreases groups.len(),
{
    if groups.len() == 0 || groups[0].name == name {
        0
    } else {
        1 + find_group_v(groups.drop_first(), name)
    }
}

/// The groups with one more file, counted under the group with a name, which is new where there is
/// none.
pub open spec fn count_under_v(groups: Seq<GroupV>, name: Seq<char>, f: FileV) -> Seq<GroupV> {
    let k = find_group_v(groups, name);
    if 0 <= k < groups.len() {
        groups.update(k, groups[k].plus(f))
    } else {
        groups.push(GroupV::empty(name).plus(f))
    }
}

/// The groups of files by directory, each where its first file stands.
pub open spec fn dir_groups_v(files: Seq<FileV>) -> Seq<GroupV>
    decreases files.len(),
{
    if files.len() == 0 {
        Seq::empty()
    } else {
        count_under_v(dir_groups_v(files.drop_last()), dir_of_v(files.last().path), files.last())
    }
}

/// The groups of files by directory, sorted.
pub open spec fn by_directory_v(files: Seq<FileV>) -> Seq<GroupV> {
    sort_groups_v(dir_groups_v(files))
}

/// What the groups count in all.
pub open spec fn sum_v(groups: Seq<GroupV>) -> GroupV
    decreases groups.len(),
{
    if groups.len() == 0 {
        GroupV::empty(Seq::empty())
    } else {
        let s = sum_v(groups.drop_last());
        GroupV {
            name: s.name,
            file_count: s.file_count + groups.last().file_count,
            additions: s.additions + groups.last().additions,
            deletions: s.deletions + groups.last().deletions,
        }
    }
}

/// No count is negative.
pub open spec fn counts_ok(groups: Seq<GroupV>) -> bool {
    forall|i: int|
        0 <= i < groups.len() ==> (#[trigger] groups[i]).file_count >= 0 && groups[i].additions >= 0
            && groups[i].deletions >= 0
}

proof fn lemma_sum_bounds(groups: Seq<GroupV>, k: int)
    requires
        counts_ok(groups),
        0 <= k < groups.len(),
    ensures
        groups[k].file_count <= sum_v(groups).file_count,
        groups[k].additions <= sum_v(groups).additions,
        groups[k].deletions <= sum_v(groups).deletions,
    decreases groups.len(),
{
    let t = groups.drop_last();
    assert forall|i: int| 0 <= i < t.len() implies (#[trigger] t[i]).file_count >= 0
        && t[i].additions >= 0 && t[i].deletions >= 0 by {
        assert(t[i] == groups[i]);
    }
    lemma_sum_nonneg(t);
    if k < t.len() {
        lemma_sum_bounds(t, k);
    }
}

proof fn lemma_sum_nonneg(groups: Seq<GroupV>)
    requires
        counts_ok(groups),
    ensures
        sum_v(groups).file_count >= 0,
        sum_v(groups).additions >= 0,
        sum_v(groups).deletions >= 0,
    decreases groups.len(),
{
    if groups.len() > 0 {
        let t = groups.drop_last();
        assert forall|i: int| 0 <= i < t.len() implies (#[trigger] t[i]).file_count >= 0
            && t[i].additions >= 0 && t[i].deletions >= 0 by {
            assert(t[i] == groups[i]);
        }
        lemma_sum_nonneg(t);
    }
}

proof fn lemma_sum_update(groups: Seq<GroupV>, k: int, f: FileV)
    requires
        0 <= k < groups.len(),
    ensures
        ({
            let a = sum_v(groups);
            let b = sum_v(groups.update(k, groups[k].plus(f)));
            &&& b.file_count == a.file_count + 1
            &&& b.additions == a.additions + f.additions
            &&& b.deletions == a.deletions + f.deletions
        }),
    decreases groups.len(),
{
    let u = groups.update(k, groups[k].plus(f));
    if k == groups.len() - 1 {
        assert(u.drop_last() =~= groups.drop_last());
    } else {
        lemma_sum_update(groups.drop_last(), k, f);
        assert(u.drop_last() =~= groups.drop_last().update(k, groups[k].plus(f)));
    }
}

proof fn lemma_find_group(groups: Seq<GroupV>, name: Seq<char>)
    ensures
        0 <= find_group_v(groups, name) <= groups.len(),
        find_group_v(groups, name) < groups.len() ==> groups[find_group_v(groups, name)].name
            == name,
        forall|j: int|
            0 <= j < find_group_v(groups, name) ==> (#[trigger] groups[j]).name != name,
    decreases groups.len(),
{
    if groups.len() > 0 && groups[0].name != name {
        lemma_find_group(groups.drop_first(), name);
        let k = find_group_v(groups.drop_first(), name);
        assert forall|j: int| 0 <= j < k + 1 implies (#[trigger] groups[j]).name != name by {
            if j > 0 {
                assert(groups.drop_first()[j - 1] == groups[j]);
            }
        }
    }
}

/// The directory groups count every file exactly once: their counts add up to the number of files,
/// and their lines to the totals of the changeset. No two have the same name.
pub proof fn law_directories_partition_files(files: Seq<FileV>)
    ensures
        ({
            let gs = dir_groups_v(files);
            &&& sum_v(gs).file_count == files.len()
            &&& sum_v(gs).additions == model::additions_v(files)
            &&& sum_v(gs).deletions == model::deletions_v(files)
            &&& counts_ok(gs)
            &&& forall|i: int, j: int|
                0 <= i < j < gs.len() ==> (#[trigger] gs[i]).name != (#[trigger] gs[j]).name
        }),
    decreases files.len(),
{
    if files.len() > 0 {
        let f = files.last();
        let before = dir_groups_v(files.drop_last());
        let name = dir_of_v(f.path);
        law_directories_partition_files(files.drop_last());
        lemma_find_group(before, name);
        let k = find_group_v(before, name);
        if k < before.len() {
            lemma_sum_update(before, k, f);
        } else {
            let g = GroupV::empty(name).plus(f);
            assert(before.push(g).drop_last() =~= before);
        }
    }
}

/// Groups files by their directory (`src/auth`), those at the root under `(root)`, sorted by churn
/// and name.
pub fn by_directory(files: &Vec<FileChange>) -> (r: Vec<Group>)
    requires
        countable(files.deep_view()),
    ensures
        r.deep_view() == by_directory_v(files.deep_view()),
        churns_fit(r.deep_view()),
{
    let ghost fs = files.deep_view();
    let mut groups: Vec<Group> = Vec::new();
    let mut i: usize = 0;
    assert(groups.deep_view() =~= Seq::empty());
    while i < files.len()
        invariant
            i <= files@.len(),
            fs == files.deep_view(),
            countable(fs),
            groups.deep_view() == dir_groups_v(fs.take(i as int)),
        decreases files@.len() - i,
    {
        let ghost before = groups.deep_view();
        let ghost prefix = fs.take(i as int);
        assert(fs.take(i + 1).drop_last() =~= prefix);
        let f = &files[i];
        assert(fs[i as int] == f.deep_view());
        let dir = dir_of(f.path.as_str());
        proof {
            law_directories_partition_files(prefix);
            crate::git::model::lemma_totals_prefix(fs, i + 1);
            lemma_find_group(before, dir@);
        }
        let mut k: usize = 0;
        while k < groups.len() && !same(groups[k].name.as_str(), dir.as_str())
            invariant
                k <= groups@.len(),
                before == groups.deep_view(),
                forall|j: int| 0 <= j < k ==> (#[trigger] before[j]).name != dir@,
            decreases groups@.len() - k,
        {
            assert(before[k as int] == groups@[k as int].deep_view());
            k = k + 1;
        }
        assert(k == find_group_v(before, dir@)) by {
            if k < groups@.len() {
                assert(before[k as int] == groups@[k as int].deep_view());
            }
        }
        if k < groups.len() {
            proof {
                lemma_sum_bounds(before, k as int);
                assert(before[k as int] == groups@[k as int].deep_view());
            }
            let mut g = groups[k].clone();
            g.count(f);
            groups.set(k, g);
            assert(groups.deep_view() =~= before.update(k as int, g.deep_view()));
        } else {
            let mut g = Group::new(dir);
            g.count(f);
            groups.push(g);
            assert(groups.deep_view() =~= before.push(g.deep_view()));
        }
        i = i + 1;
    }
    assert(fs.take(fs.len() as int) =~= fs);
    let ghost gs = groups.deep_view();
    proof {
        law_directories_partition_files(fs);
        assert forall|j: int| 0 <= j < gs.len() implies (#[trigger] gs[j]).churn()
            <= usize::MAX by {
            lemma_sum_bounds(gs, j);
        }
    }
    let r = sort_groups(groups);
    proof {
        lemma_sorted_fit(gs);
    }
    r
}

/// Sorting keeps the churns countable.
proof fn lemma_sorted_fit(gs: Seq<GroupV>)
    requires
        churns_fit(gs),
    ensures
        churns_fit(sort_groups_v(gs)),
{
    let keys = group_keys_v(gs);
    let order = order::sort_v(order::upto(gs.len()), keys);
    crate::order::law_sort(order::upto(gs.len()), keys);
    assert forall|j: int| 0 <= j < sort_groups_v(gs).len() implies (#[trigger] sort_groups_v(
        gs,
    )[j]).churn() <= usize::MAX by {
        assert(order.contains(order[j]));
        assert(order::upto(gs.len()).contains(order[j]));
        let k = choose|k: int| 0 <= k < gs.len() && order::upto(gs.len())[k] == order[j];
        assert(order[j] == k as usize);
    }
}

// ---- By configuration ----

/// What a configured group counts: the files that one of its patterns matches.
pub open spec fn config_group_v(files: Seq<FileV>, g: GroupPatternsV) -> GroupV
    decreases files.len(),
{
    if files.len() == 0 {
        GroupV::empty(g.name)
    } else {
        let before = config_group_v(files.drop_last(), g);
        if config::any_matches_v(g.patterns, files.last().path) {
            before.plus(files.last())
        } else {
            before
        }
    }
}

/// Does a path belong to none of the groups?
pub open spec fn in_none_v(groups: Seq<GroupPatternsV>, path: Seq<char>) -> bool {
    forall|i: int| 0 <= i < groups.len() ==> !config::any_matches_v((#[trigger] groups[i]).patterns, path)
}

/// Does a path belong to more than one of the groups?
pub open spec fn in_several_v(groups: Seq<GroupPatternsV>, path: Seq<char>) -> bool {
    config::groups_for_v(groups, path, groups.len()).len() > 1
}

/// What counts under "Other": the files that belong to none of the groups.
pub open spec fn other_group_v(files: Seq<FileV>, groups: Seq<GroupPatternsV>) -> GroupV
    decreases files.len(),
{
    if files.len() == 0 {
        GroupV::empty("Other"@)
    } else {
        let before = other_group_v(files.drop_last(), groups);
        if in_none_v(groups, files.last().path) {
            before.plus(files.last())
        } else {
            before
        }
    }
}

/// The configured groups with what each counts.
pub open spec fn config_groups_v(files: Seq<FileV>, groups: Seq<GroupPatternsV>) -> Seq<GroupV> {
    groups.map_values(|g: GroupPatternsV| config_group_v(files, g))
}

/// The groups that count some file, in order.
pub open spec fn filled_v(groups: Seq<GroupV>) -> Seq<GroupV>
    decreases groups.len(),
{
    if groups.len() == 0 {
        Seq::empty()
    } else if groups.last().file_count > 0 {
        filled_v(groups.drop_last()).push(groups.last())
    } else {
        filled_v(groups.drop_last())
    }
}

/// The rollup by configured groups: those that count some file, with "Other" where it does, sorted.
pub open spec fn by_config_v(files: Seq<FileV>, config: ConfigV) -> GroupingV {
    let named = filled_v(config_groups_v(files, config.groups));
    let other = other_group_v(files, config.groups);
    GroupingV {
        groups: sort_groups_v(
            if other.file_count > 0 {
                named.push(other)
            } else {
                named
            },
        ),
        from_config: true,
        multi_group: exists|i: int|
            0 <= i < files.len() && in_several_v(config.groups, (#[trigger] files[i]).path),
    }
}

/// The rollup of files, by the configuration where there is one, else by directory.
pub open spec fn build_v(files: Seq<FileV>, config: Option<ConfigV>) -> GroupingV {
    match config {
        Some(c) => by_config_v(files, c),
        None => GroupingV {
            groups: by_directory_v(files),
            from_config: false,
            multi_group: false,
        },
    }
}

/// `groups_for_v` holds exactly the groups that a path belongs to, each once.
proof fn lemma_groups_for(groups: Seq<GroupPatternsV>, path: Seq<char>, k: nat)
    requires
        k <= groups.len() <= usize::MAX,
    ensures
        forall|i: usize| #[trigger]
            config::groups_for_v(groups, path, k).contains(i) <==> i < k && config::any_matches_v(
                groups[i as int].patterns,
                path,
            ),
        config::groups_for_v(groups, path, k).no_duplicates(),
        config::groups_for_v(groups, path, k).len() == 0 <==> (forall|i: int|
            0 <= i < k ==> !config::any_matches_v((#[trigger] groups[i]).patterns, path)),
    decreases k,
{
    let r = config::groups_for_v(groups, path, k);
    if k > 0 {
        let before = config::groups_for_v(groups, path, (k - 1) as nat);
        lemma_groups_for(groups, path, (k - 1) as nat);
        let x = (k - 1) as usize;
        if config::any_matches_v(groups[k - 1].patterns, path) {
            assert(!before.contains(x));
            assert forall|i: usize| #[trigger] r.contains(i) <==> i < k && config::any_matches_v(
                groups[i as int].patterns,
                path,
            ) by {
                if r.contains(i) {
                    let j = choose|j: int| 0 <= j < r.len() && r[j] == i;
                    if j < before.len() {
                        assert(before[j] == i);
                        assert(before.contains(i));
                    }
                }
                if i < k - 1 && config::any_matches_v(groups[i as int].patterns, path) {
                    assert(before.contains(i));
                    let j = choose|j: int| 0 <= j < before.len() && before[j] == i;
                    assert(r[j] == i);
                }
                assert(r[before.len() as int] == x);
            }
            assert(config::any_matches_v(groups[k - 1].patterns, path));
        } else {
            assert forall|i: usize| #[trigger] r.contains(i) <==> i < k && config::any_matches_v(
                groups[i as int].patterns,
                path,
            ) by {
                assert(before.contains(i) <==> i < k - 1 && config::any_matches_v(
                    groups[i as int].patterns,
                    path,
                ));
            }
        }
    }
}

/// A group counts at most what the files hold.
proof fn lemma_config_group_bounds(files: Seq<FileV>, g: GroupPatternsV)
    ensures
        0 <= config_group_v(files, g).file_count <= files.len(),
        0 <= config_group_v(files, g).additions <= model::additions_v(files),
        0 <= config_group_v(files, g).deletions <= model::deletions_v(files),
    decreases files.len(),
{
    if files.len() > 0 {
        lemma_config_group_bounds(files.drop_last(), g);
    }
}

proof fn lemma_other_group_bounds(files: Seq<FileV>, groups: Seq<GroupPatternsV>)
    ensures
        0 <= other_group_v(files, groups).file_count <= files.len(),
        0 <= other_group_v(files, groups).additions <= model::additions_v(files),
        0 <= other_group_v(files, groups).deletions <= model::deletions_v(files),
    decreases files.len(),
{
    if files.len() > 0 {
        lemma_other_group_bounds(files.drop_last(), groups);
    }
}

/// The groups with one more file, counted in those at the indices `at`.
spec fn counted_in(groups: Seq<GroupV>, at: Seq<usize>, f: FileV) -> Seq<GroupV> {
    Seq::new(
        groups.len(),
        |i: int|
            if at.contains(i as usize) {
                groups[i].plus(f)
            } else {
                groups[i]
            },
    )
}

/// Counts a file in the groups at the indices `at`.
fn count_in(groups: &mut Vec<Group>, at: &Vec<usize>, f: &FileChange)
    requires
        at@.no_duplicates(),
        forall|k: int| 0 <= k < at@.len() ==> #[trigger] at@[k] < old(groups)@.len(),
        forall|i: int|
            0 <= i < old(groups)@.len() ==> (#[trigger] old(groups)@[i]).file_count < usize::MAX
                && old(groups)@[i].additions + f.additions <= usize::MAX && old(groups)@[i].deletions
                + f.deletions <= usize::MAX,
    ensures
        final(groups).deep_view() == counted_in(old(groups).deep_view(), at@, f.deep_view()),
{
    let ghost gs = groups.deep_view();
    let ghost fv = f.deep_view();
    let n: usize = groups.len();
    let mut k: usize = 0;
    assert(counted_in(gs, at@.take(0), fv) =~= gs);
    while k < at.len()
        invariant
            k <= at@.len(),
            at@.no_duplicates(),
            gs == old(groups).deep_view(),
            fv == f.deep_view(),
            n == groups@.len() == old(groups)@.len(),
            forall|k: int| 0 <= k < at@.len() ==> #[trigger] at@[k] < groups@.len(),
            forall|i: int|
                0 <= i < old(groups)@.len() ==> (#[trigger] old(groups)@[i]).file_count < usize::MAX
                    && old(groups)@[i].additions + f.additions <= usize::MAX && old(
                    groups,
                )@[i].deletions + f.deletions <= usize::MAX,
            groups.deep_view() == counted_in(gs, at@.take(k as int), fv),
        decreases at@.len() - k,
    {
        let ghost before = groups.deep_view();
        let gi: usize = at[k];
        assert(at@[k as int] < groups@.len());
        assert(!at@.take(k as int).contains(gi)) by {
            if at@.take(k as int).contains(gi) {
                let j = choose|j: int| 0 <= j < k && at@.take(k as int)[j] == gi;
                assert(at@[j] == at@[k as int]);
            }
        }
        assert(before[gi as int] == gs[gi as int]);
        assert(before[gi as int] == groups@[gi as int].deep_view());
        assert(gs[gi as int] == old(groups)@[gi as int].deep_view());
        let mut g = groups[gi].clone();
        g.count(f);
        groups.set(gi, g);
        assert(groups.deep_view() =~= before.update(gi as int, g.deep_view()));
        assert(counted_in(gs, at@.take(k + 1), fv) =~= groups.deep_view()) by {
            let now = at@.take(k + 1);
            let was = at@.take(k as int);
            assert(now =~= was.push(gi));
            assert forall|i: int| 0 <= i < gs.len() implies counted_in(gs, now, fv)[i]
                == groups.deep_view()[i] by {
                if was.contains(i as usize) {
                    let j = choose|j: int| 0 <= j < was.len() && was[j] == i as usize;
                    assert(now[j] == i as usize);
                }
                if now.contains(i as usize) && i != gi {
                    let j = choose|j: int| 0 <= j < now.len() && now[j] == i as usize;
                    assert(was[j] == i as usize);
                }
                assert(now[k as int] == gi);
            }
        }
        k = k + 1;
    }
    assert(at@.take(at@.len() as int) =~= at@);
}

/// The groups that count some file, in order.
fn filled(groups: &Vec<Group>) -> (r: Vec<Group>)
    ensures
        r.deep_view() == filled_v(groups.deep_view()),
{
    let ghost gs = groups.deep_view();
    let mut out: Vec<Group> = Vec::new();
    let mut i: usize = 0;
    assert(out.deep_view() =~= Seq::empty());
    while i < groups.len()
        invariant
            i <= groups@.len(),
            gs == groups.deep_view(),
            out.deep_view() == filled_v(gs.take(i as int)),
        decreases groups@.len() - i,
    {
        let ghost before = out.deep_view();
        assert(gs.take(i + 1).drop_last() =~= gs.take(i as int));
        assert(gs[i as int] == groups@[i as int].deep_view());
        if groups[i].file_count > 0 {
            let g = groups[i].clone();
            out.push(g);
            assert(out.deep_view() =~= before.push(g.deep_view()));
        }
        i = i + 1;
    }
    assert(gs.take(gs.len() as int) =~= gs);
    out
}

/// What is true of every group is true of those that count some file.
proof fn lemma_filled_fit(groups: Seq<GroupV>)
    requires
        churns_fit(groups),
    ensures
        churns_fit(filled_v(groups)),
    decreases groups.len(),
{
    if groups.len() > 0 {
        let t = groups.drop_last();
        assert forall|i: int| 0 <= i < t.len() implies (#[trigger] t[i]).churn() <= usize::MAX by {
            assert(t[i] == groups[i]);
        }
        lemma_filled_fit(t);
        assert(groups[groups.len() - 1].churn() <= usize::MAX);
    }
}

/// Groups files by the configured groups. A file that matches several counts under each; one that
/// matches none counts under "Other". The overview's totals come from the changeset, so that such
/// a file counts once there.
pub fn by_config(files: &Vec<FileChange>, config: &Config) -> (r: Grouping)
    requires
        countable(files.deep_view()),
    ensures
        r.deep_view() == by_config_v(files.deep_view(), config@),
        churns_fit(r.deep_view().groups),
{
    let ghost fs = files.deep_view();
    let ghost cs = config@.groups;
    let names = config.group_names();
    assert(names.deep_view().len() == cs.len());
    let mut groups: Vec<Group> = Vec::new();
    let mut n: usize = 0;
    assert(fs.take(0) =~= Seq::empty());
    while n < names.len()
        invariant
            n <= names@.len() == cs.len(),
            names.deep_view() == cs.map_values(|g: GroupPatternsV| g.name),
            groups.deep_view() =~= config_groups_v(Seq::empty(), cs).take(n as int),
        decreases names@.len() - n,
    {
        let ghost before = groups.deep_view();
        assert(names.deep_view()[n as int] == names@[n as int]@);
        assert(cs.map_values(|g: GroupPatternsV| g.name)[n as int] == cs[n as int].name);
        let g = Group::new(names[n].clone());
        groups.push(g);
        assert(groups.deep_view() =~= before.push(g.deep_view()));
        assert(config_groups_v(Seq::empty(), cs)[n as int] == g.deep_view());
        n = n + 1;
    }
    assert(config_groups_v(Seq::empty(), cs).take(cs.len() as int) =~= config_groups_v(
        Seq::empty(),
        cs,
    ));
    let total: usize = names.len();
    let mut other = Group::new("Other".to_owned());
    let mut multi_group: bool = false;
    let mut i: usize = 0;
    while i < files.len()
        invariant
            i <= files@.len(),
            fs == files.deep_view(),
            countable(fs),
            cs == config@.groups,
            groups@.len() == cs.len() == total,
            groups.deep_view() == config_groups_v(fs.take(i as int), cs),
            other.deep_view() == other_group_v(fs.take(i as int), cs),
            multi_group == (exists|j: int|
                0 <= j < i && in_several_v(cs, (#[trigger] fs[j]).path)),
        decreases files@.len() - i,
    {
        let ghost prefix = fs.take(i as int);
        let ghost before = groups.deep_view();
        let ghost multi_before = multi_group;
        assert(fs.take(i + 1).drop_last() =~= prefix);
        let f = &files[i];
        assert(fs[i as int] == f.deep_view());
        let matched = config.groups_for(f.path.as_str());
        proof {
            lemma_groups_for(cs, f.path@, cs.len());
            crate::git::model::lemma_totals_prefix(fs, i + 1);
            assert forall|j: int| 0 <= j < groups@.len() implies (#[trigger] groups@[j]).file_count
                < usize::MAX && groups@[j].additions + f.additions <= usize::MAX
                && groups@[j].deletions + f.deletions <= usize::MAX by {
                lemma_config_group_bounds(prefix, cs[j]);
                assert(before[j] == groups@[j].deep_view());
                assert(before[j] == config_group_v(prefix, cs[j]));
            }
            lemma_other_group_bounds(prefix, cs);
            assert forall|k: int| 0 <= k < matched@.len() implies #[trigger] matched@[k]
                < groups@.len() by {
                assert(matched@.contains(matched@[k]));
            }
        }
        if matched.len() > 1 {
            multi_group = true;
        }
        assert(multi_group == (exists|j: int|
            0 <= j < i + 1 && in_several_v(cs, (#[trigger] fs[j]).path))) by {
            if multi_before {
                let j = choose|j: int| 0 <= j < i && in_several_v(cs, (#[trigger] fs[j]).path);
                assert(in_several_v(cs, fs[j].path));
            }
            if matched@.len() > 1 {
                assert(in_several_v(cs, fs[i as int].path));
            }
        }
        if matched.len() == 0 {
            other.count(f);
            assert(groups.deep_view() =~= config_groups_v(fs.take(i + 1), cs));
        } else {
            count_in(&mut groups, &matched, f);
            assert(groups.deep_view() =~= config_groups_v(fs.take(i + 1), cs)) by {
                assert forall|j: int| 0 <= j < cs.len() implies counted_in(
                    before,
                    matched@,
                    f.deep_view(),
                )[j] == config_groups_v(fs.take(i + 1), cs)[j] by {
                    assert(matched@.contains(j as usize) <==> config::any_matches_v(
                        cs[j].patterns,
                        f.path@,
                    ));
                    assert(before[j] == config_group_v(prefix, cs[j]));
                }
            }
            assert(!in_none_v(cs, f.path@));
        }
        i = i + 1;
    }
    assert(fs.take(fs.len() as int) =~= fs);
    proof {
        let gs = groups.deep_view();
        assert forall|j: int| 0 <= j < gs.len() implies (#[trigger] gs[j]).churn() <= usize::MAX by {
            lemma_config_group_bounds(fs, cs[j]);
            assert(gs[j] == config_group_v(fs, cs[j]));
        }
        lemma_filled_fit(gs);
        lemma_other_group_bounds(fs, cs);
    }
    let mut kept = filled(&groups);
    let ghost named = kept.deep_view();
    if other.file_count > 0 {
        kept.push(other);
        assert(kept.deep_view() =~= named.push(other.deep_view()));
    }
    proof {
        lemma_sorted_fit(kept.deep_view());
    }
    Grouping { groups: sort_groups(kept), from_config: true, multi_group }
}

/// The value of an optional configuration.
pub open spec fn config_view(config: Option<&Config>) -> Option<ConfigV> {
    match config {
        Some(c) => Some(c@),
        None => None,
    }
}

/// Builds the rollup: by the configuration where there is one, else by directory.
pub fn build(files: &Vec<FileChange>, config: Option<&Config>) -> (r: Grouping)
    requires
        countable(files.deep_view()),
    ensures
        r.deep_view() == build_v(files.deep_view(), config_view(config)),
        churns_fit(r.deep_view().groups),
{
    match config {
        Some(c) => by_config(files, c),
        None => Grouping { groups: by_directory(files), from_config: false, multi_group: false },
    }
}

/// Every file counts somewhere: under "Other" exactly where it counts under no configured group.
pub proof fn law_every_file_is_grouped(groups: Seq<GroupPatternsV>, path: Seq<char>)
    requires
        groups.len() <= usize::MAX,
    ensures
        in_none_v(groups, path) <==> config::groups_for_v(groups, path, groups.len()).len() == 0,
        forall|i: usize| #[trigger]
            config::groups_for_v(groups, path, groups.len()).contains(i) <==> i < groups.len()
                && config::any_matches_v(groups[i as int].patterns, path),
{
    lemma_groups_for(groups, path, groups.len());
}

// ---- What a group counts ----

/// A group of a name with just some files.
pub open spec fn group_of(name: Seq<char>, files: Seq<FileV>) -> GroupV {
    GroupV {
        name,
        file_count: files.len() as int,
        additions: model::additions_v(files),
        deletions: model::deletions_v(files),
    }
}

proof fn lemma_group_of_push(name: Seq<char>, files: Seq<FileV>, f: FileV)
    ensures
        group_of(name, files.push(f)) == group_of(name, files).plus(f),
{
    assert(files.push(f).drop_last() =~= files);
}

/// A configured group counts exactly the files that one of its patterns matches.
pub proof fn law_config_group(files: Seq<FileV>, g: GroupPatternsV)
    ensures
        config_group_v(files, g) == group_of(
            g.name,
            files.filter(|f: FileV| config::any_matches_v(g.patterns, f.path)),
        ),
    decreases files.len(),
{
    reveal(Seq::filter);
    let pred = |f: FileV| config::any_matches_v(g.patterns, f.path);
    if files.len() > 0 {
        law_config_group(files.drop_last(), g);
        lemma_group_of_push(g.name, files.drop_last().filter(pred), files.last());
    } else {
        assert(files.filter(pred) =~= Seq::empty());
    }
}

/// The catch-all group counts exactly the files that no pattern of any group matches.
pub proof fn law_other_group(files: Seq<FileV>, groups: Seq<GroupPatternsV>)
    ensures
        other_group_v(files, groups) == group_of(
            "Other"@,
            files.filter(
                |f: FileV|
                    forall|i: int|
                        0 <= i < groups.len() ==> !config::any_matches_v(
                            (#[trigger] groups[i]).patterns,
                            f.path,
                        ),
            ),
        ),
    decreases files.len(),
{
    reveal(Seq::filter);
    let pred = |f: FileV|
        forall|i: int|
            0 <= i < groups.len() ==> !config::any_matches_v(
                (#[trigger] groups[i]).patterns,
                f.path,
            );
    if files.len() > 0 {
        law_other_group(files.drop_last(), groups);
        lemma_group_of_push("Other"@, files.drop_last().filter(pred), files.last());
    } else {
        assert(files.filter(pred) =~= Seq::empty());
    }
}

/// Without a configuration there is one group for each directory that holds a changed file, and it
/// counts exactly the files that lie directly in it.
pub proof fn law_directory_groups(files: Seq<FileV>)
    ensures
        forall|k: int|
            0 <= k < dir_groups_v(files).len() ==> (#[trigger] dir_groups_v(files)[k]) == group_of(
                dir_groups_v(files)[k].name,
                files.filter(|f: FileV| dir_of_v(f.path) == dir_groups_v(files)[k].name),
            ) && dir_groups_v(files)[k].file_count > 0,
        forall|i: int|
            0 <= i < files.len() ==> exists|k: int|
                0 <= k < dir_groups_v(files).len() && (#[trigger] dir_groups_v(files)[k]).name
                    == dir_of_v((#[trigger] files[i]).path),
    decreases files.len(),
{
    reveal(Seq::filter);
    if files.len() > 0 {
        let init = files.drop_last();
        let f = files.last();
        law_directory_groups(init);
        law_directories_partition_files(init);
        let before = dir_groups_v(init);
        let all = dir_groups_v(files);
        let name = dir_of_v(f.path);
        let at = find_group_v(before, name);
        lemma_find_group(before, name);
        assert forall|k: int| 0 <= k < all.len() implies (#[trigger] all[k]) == group_of(
            all[k].name,
            files.filter(|f: FileV| dir_of_v(f.path) == all[k].name),
        ) && all[k].file_count > 0 by {
            let pred = |f: FileV| dir_of_v(f.path) == all[k].name;
            assert(files.filter(pred) == (if pred(f) {
                init.filter(pred).push(f)
            } else {
                init.filter(pred)
            }));
            if k < before.len() {
                assert(before[k].name == all[k].name);
                assert(before[k] == group_of(before[k].name, init.filter(pred)));
                if k == at {
                    lemma_group_of_push(name, init.filter(pred), f);
                } else {
                    assert(all[k] == before[k]);
                    if before[k].name == name {
                        assert(at < k);
                        assert(before[at].name != before[k].name);
                    }
                }
            } else {
                assert(init.filter(pred).len() == 0) by {
                    let kept = init.filter(pred);
                    if kept.len() > 0 {
                        order::lemma_filtered(init, pred, kept[0]);
                        assert(kept.contains(kept[0]));
                        let i = choose|i: int| 0 <= i < init.len() && init[i] == kept[0];
                        let m = choose|m: int|
                            0 <= m < before.len() && (#[trigger] before[m]).name == dir_of_v(
                                init[i].path,
                            );
                        assert(before[m].name == name);
                    }
                }
                assert(init.filter(pred) =~= Seq::empty());
                lemma_group_of_push(name, Seq::empty(), f);
                assert(group_of(name, Seq::empty()) == GroupV::empty(name));
            }
        }
        assert forall|i: int| 0 <= i < files.len() implies exists|k: int|
            0 <= k < all.len() && (#[trigger] all[k]).name == dir_of_v(
                (#[trigger] files[i]).path,
            ) by {
            if i < init.len() {
                assert(files[i] == init[i]);
                let m = choose|m: int|
                    0 <= m < before.len() && (#[trigger] before[m]).name == dir_of_v(
                        init[i].path,
                    );
                assert(all[m].name == before[m].name);
            } else if at < before.len() {
                assert(all[at].name == name);
            } else {
                assert(all[before.len() as int].name == name);
            }
        }
    }
}

/// Sorting keeps the groups, and puts groups of the same churn in order of their names.
pub proof fn law_groups_are_kept(groups: Seq<GroupV>)
    requires
        groups.len() <= usize::MAX,
        churns_fit(groups),
        forall|k: int| 0 <= k < groups.len() ==> (#[trigger] groups[k]).churn() >= 0,
    ensures
        sort_groups_v(groups).to_multiset() == groups.to_multiset(),
        forall|i: int, j: int|
            0 <= i < j < sort_groups_v(groups).len() ==> {
                let a = #[trigger] sort_groups_v(groups)[i];
                let b = #[trigger] sort_groups_v(groups)[j];
                is_catchall_v(a.name) == is_catchall_v(b.name) && a.churn() == b.churn() ==> a.name
                    == b.name || crate::outline::text_before(a.name, b.name)
            },
{
    let keys = group_keys_v(groups);
    let items = order::upto(groups.len());
    let at = order::sort_v(items, keys);
    let r = sort_groups_v(groups);
    order::law_sort(items, keys);
    order::lemma_pick_multiset(groups, at);
    assert forall|i: int, j: int| 0 <= i < j < r.len() implies {
        let a = #[trigger] r[i];
        let b = #[trigger] r[j];
        is_catchall_v(a.name) == is_catchall_v(b.name) && a.churn() == b.churn() ==> a.name
            == b.name || crate::outline::text_before(a.name, b.name)
    } by {
        let a = r[i];
        let b = r[j];
        assert(at.contains(at[i]) && at.contains(at[j]));
        assert(items.contains(at[i]) && items.contains(at[j]));
        assert(order::key_le(keys[at[i] as int], keys[at[j] as int]));
        assert(order::key_le(group_key_v(a), group_key_v(b)));
        if is_catchall_v(a.name) == is_catchall_v(b.name) && a.churn() == b.churn() {
            let x = group_key_v(a);
            let y = group_key_v(b);
            reveal_with_fuel(order::key_le, 3);
            assert(x.drop_first().drop_first() =~= path::text_key_v(a.name));
            assert(y.drop_first().drop_first() =~= path::text_key_v(b.name));
            crate::outline::lemma_text_keys(a.name, b.name);
        }
    }
}

proof fn lemma_filled(groups: Seq<GroupV>)
    ensures
        filled_v(groups) == groups.filter(|g: GroupV| g.file_count > 0),
    decreases groups.len(),
{
    reveal(Seq::filter);
    if groups.len() > 0 {
        lemma_filled(groups.drop_last());
    } else {
        assert(groups.filter(|g: GroupV| g.file_count > 0) =~= Seq::empty());
    }
}

/// With a configuration the groups are the configured ones that have a file, each with the files
/// that its patterns match, and one for the files that none does where there are any; several
/// groups share a file exactly where its path is matched in more than one.
pub proof fn law_grouping_by_config(files: Seq<FileV>, config: ConfigV)
    requires
        config.groups.len() < usize::MAX,
    ensures
        ({
            let g = build_v(files, Some(config));
            let all = config.groups.map_values(
                |p: GroupPatternsV|
                    group_of(
                        p.name,
                        files.filter(|f: FileV| config::any_matches_v(p.patterns, f.path)),
                    ),
            );
            let named = all.filter(|x: GroupV| x.file_count > 0);
            let other = other_group_v(files, config.groups);
            &&& g.from_config
            &&& g.groups.to_multiset() == (if other.file_count > 0 {
                named.push(other)
            } else {
                named
            }).to_multiset()
            &&& g.multi_group <==> exists|i: int|
                #![trigger files[i]]
                0 <= i < files.len() && config::groups_for_v(
                    config.groups,
                    files[i].path,
                    config.groups.len(),
                ).len() > 1
        }),
        !build_v(files, None).from_config,
        !build_v(files, None).multi_group,
{
    let all = config.groups.map_values(
        |p: GroupPatternsV|
            group_of(p.name, files.filter(|f: FileV| config::any_matches_v(p.patterns, f.path))),
    );
    let ours = config_groups_v(files, config.groups);
    assert forall|i: int| 0 <= i < ours.len() implies ours[i] == all[i] by {
        law_config_group(files, config.groups[i]);
    }
    assert(ours =~= all);
    lemma_filled(ours);
    let named = filled_v(ours);
    let pred = |x: GroupV| x.file_count > 0;
    order::lemma_filtered(ours, pred, other_group_v(files, config.groups));
    let other = other_group_v(files, config.groups);
    let groups = if other.file_count > 0 {
        named.push(other)
    } else {
        named
    };
    order::law_sort(order::upto(groups.len()), group_keys_v(groups));
    order::lemma_pick_multiset(groups, order::sort_v(order::upto(groups.len()), group_keys_v(groups)));
}

/// The groups for what is in no other group come last: behind `Other` and `(root)` there is only the
/// like.
pub proof fn law_catch_alls_last(groups: Seq<GroupV>, i: int, j: int)
    requires
        churns_fit(groups),
        forall|k: int| 0 <= k < groups.len() ==> (#[trigger] groups[k]).churn() >= 0,
        0 <= i < j < sort_groups_v(groups).len(),
        sort_groups_v(groups)[i].name == "Other"@ || sort_groups_v(groups)[i].name == "(root)"@,
    ensures
        sort_groups_v(groups)[j].name == "Other"@ || sort_groups_v(groups)[j].name == "(root)"@,
{
    law_groups_are_ranked(groups, i, j);
}

/// A file is counted under the directory that it lies in, and one that lies in none under `(root)`.
pub proof fn law_directory_of(dir: Seq<char>, last: Seq<char>, name: Seq<char>)
    requires
        path::plain_name(last),
        path::plain_name(name),
        dir.len() == 0 || dir.last() == '/',
    ensures
        dir_of_v((dir + last).push('/') + name) == dir + last,
        dir_of_v(name) == "(root)"@,
{
    path::law_parents(dir, last, name);
    path::law_file_names(dir, name);
}

} // verus!
