//! Which files have been viewed, by the content hash of their diff.
//!
//! A file stays viewed over a rebase that does not change its diff, and becomes unviewed when its
//! diff changes in more than whitespace. On disk the hashes are hexadecimal strings of sixteen
//! digits, in ascending order. The whole set is kept, whatever changeset is shown, so that
//! switching branches loses no mark.
use std::collections::HashSet;
use vstd::prelude::*;
use vstd::arithmetic::power::pow;

use crate::path;
use crate::text;
use crate::order::{indices, sort_by_keys};
use crate::path::join_path;
use crate::text::{hex, parse};

verus! {

broadcast use {vstd::seq_lib::group_seq_properties, vstd::std_specs::hash::group_hash_axioms};

/// The version of the file's layout.
pub const FILE_VERSION: u32 = 1;

/// What the file holds.
#[derive(Debug)]
pub struct OnDisk {
    pub version: u32,
    /// Content hashes, each as sixteen hexadecimal digits.
    pub viewed: Vec<String>,
}

/// The viewed files of a repository.
pub struct Viewed {
    set: HashSet<u64>,
    dirty: bool,
}

/// The mathematical value of a [`Viewed`].
#[verifier::ext_equal]
pub ghost struct ViewedV {
    pub set: Set<u64>,
    pub dirty: bool,
}

impl View for Viewed {
    type V = ViewedV;

    closed spec fn view(&self) -> ViewedV {
        ViewedV { set: self.set@, dirty: self.dirty }
    }
}

/// The hashes that a list of strings writes; strings that write none are passed over.
pub open spec fn parsed_v(list: Seq<Seq<char>>) -> Set<u64> {
    Set::new(
        |h: u64|
            exists|i: int|
                0 <= i < list.len() && text::parse_v(#[trigger] list[i], 16, u64::MAX as int) == Some(
                    h as int,
                ),
    )
}

/// A hash as it stands on disk.
pub open spec fn hash_text_v(h: u64) -> Seq<char> {
    text::hex_v(h as nat, 16)
}

/// The numbers ascend.
pub open spec fn ascending(hs: Seq<u64>) -> bool {
    forall|i: int, j: int| 0 <= i < j < hs.len() ==> #[trigger] hs[i] < #[trigger] hs[j]
}

/// `list` writes the hashes `hs`.
pub open spec fn writes(list: Seq<Seq<char>>, hs: Seq<u64>) -> bool {
    list.len() == hs.len() && forall|i: int|
        0 <= i < list.len() ==> #[trigger] list[i] == hash_text_v(hs[i])
}

/// `list` writes the hashes of `set`, each once and in ascending order.
pub open spec fn lists(list: Seq<Seq<char>>, set: Set<u64>) -> bool {
    exists|hs: Seq<u64>|
        ascending(hs) && (forall|h: u64| #![auto] hs.contains(h) <==> set.contains(h)) && #[trigger]
            writes(list, hs)
}

/// A hash that was written reads back as itself.
proof fn lemma_hash_text(h: u64)
    ensures
        text::parse_v(hash_text_v(h), 16, u64::MAX as int) == Some(h as int),
{
    assert(pow(16, 16) == 0x1_0000_0000_0000_0000) by {
        reveal(pow);
        reveal_with_fuel(pow, 17);
    }
    crate::text::lemma_hex_value(h as nat, 16);
}

/// What is written to disk reads back as the same set.
pub proof fn law_viewed_round_trip(list: Seq<Seq<char>>, set: Set<u64>)
    requires
        lists(list, set),
    ensures
        parsed_v(list) == set,
{
    let hs = choose|hs: Seq<u64>|
        ascending(hs) && (forall|h: u64| #![auto] hs.contains(h) <==> set.contains(h)) && #[trigger]
            writes(list, hs);
    assert forall|h: u64| parsed_v(list).contains(h) <==> set.contains(h) by {
        if set.contains(h) {
            assert(hs.contains(h));
            let i = choose|i: int| 0 <= i < hs.len() && hs[i] == h;
            assert(list[i] == hash_text_v(h));
            lemma_hash_text(h);
        }
        if parsed_v(list).contains(h) {
            let i = choose|i: int|
                0 <= i < list.len() && text::parse_v(#[trigger] list[i], 16, u64::MAX as int) == Some(
                    h as int,
                );
            assert(list[i] == hash_text_v(hs[i]));
            lemma_hash_text(hs[i]);
            assert(hs[i] == h);
            assert(hs.contains(h));
        }
    }
    assert(parsed_v(list) =~= set);
}

impl Viewed {
    /// Where the viewed hashes of the repository with git directory `git_dir` are kept.
    pub fn file_path(git_dir: &str) -> (r: String)
        ensures
            r@ == path::join_path_v(path::join_path_v(git_dir@, "rudiff"@), "viewed.json"@),
    {
        let dir = join_path(git_dir, "rudiff");
        join_path(dir.as_str(), "viewed.json")
    }

    /// The viewed set that the strings of a file write; strings that write no hash are passed over.
    /// (A missing or broken file counts as one without strings.)
    pub fn load(saved: &Vec<String>) -> (r: Viewed)
        ensures
            r@.set == parsed_v(saved.deep_view()),
            !r@.dirty,
    {
        let ghost list = saved.deep_view();
        let mut set: HashSet<u64> = HashSet::new();
        let mut i: usize = 0;
        while i < saved.len()
            invariant
                i <= saved@.len(),
                list == saved.deep_view(),
                forall|h: u64|
                    set@.contains(h) <==> exists|j: int|
                        0 <= j < i && text::parse_v(#[trigger] list[j], 16, u64::MAX as int) == Some(
                            h as int,
                        ),
            decreases saved@.len() - i,
        {
            let ghost before = set@;
            assert(list[i as int] == saved@[i as int]@);
            let value = parse(saved[i].as_str(), 16, u64::MAX);
            if let Some(h) = value {
                set.insert(h);
            }
            assert forall|h: u64|
                set@.contains(h) <==> exists|j: int|
                    0 <= j < i + 1 && text::parse_v(#[trigger] list[j], 16, u64::MAX as int) == Some(
                        h as int,
                    ) by {
                if before.contains(h) {
                    let j = choose|j: int|
                        0 <= j < i && text::parse_v(#[trigger] list[j], 16, u64::MAX as int) == Some(
                            h as int,
                        );
                    assert(0 <= j < i + 1 && text::parse_v(list[j], 16, u64::MAX as int) == Some(
                        h as int,
                    ));
                }
                if set@.contains(h) && !before.contains(h) {
                    assert(text::parse_v(list[i as int], 16, u64::MAX as int) == Some(h as int));
                }
            }
            i = i + 1;
        }
        assert(set@ =~= parsed_v(list));
        Viewed { set, dirty: false }
    }

    pub fn is_viewed(&self, hash: u64) -> (r: bool)
        ensures
            r == self@.set.contains(hash),
    {
        self.set.contains(&hash)
    }

    pub fn set_viewed(&mut self, hash: u64, viewed: bool)
        ensures
            final(self)@ == (ViewedV {
                set: if viewed {
                    old(self)@.set.insert(hash)
                } else {
                    old(self)@.set.remove(hash)
                },
                dirty: old(self)@.dirty || old(self)@.set.contains(hash) != viewed,
            }),
    {
        let changed: bool = if viewed {
            self.set.insert(hash)
        } else {
            self.set.remove(&hash)
        };
        self.dirty = self.dirty || changed;
    }

    /// The hashes, in ascending order.
    fn sorted_hashes(&self) -> (r: Vec<u64>)
        ensures
            ascending(r@),
            forall|h: u64| #![auto] r@.contains(h) <==> self@.set.contains(h),
    {
        let mut hs: Vec<u64> = Vec::new();
        for h in it: self.set.iter()
            invariant
                it.seq().unref().to_set() == self.set@,
                it.seq().no_duplicates(),
                hs@ =~= it.seq().unref().take(it.index() as int),
        {
            hs.push(*h);
        }
        assert(hs@.to_set() =~= self.set@);
        assert(hs@.no_duplicates());
        let mut keys: Vec<Vec<u64>> = Vec::new();
        let mut i: usize = 0;
        while i < hs.len()
            invariant
                i == keys@.len() <= hs@.len(),
                forall|j: int| 0 <= j < i ==> #[trigger] keys.deep_view()[j] == seq![hs@[j]],
            decreases hs@.len() - i,
        {
            let ghost before = keys.deep_view();
            let key: Vec<u64> = vec![hs[i]];
            assert(key.deep_view() =~= seq![hs@[i as int]]);
            keys.push(key);
            assert(keys.deep_view() =~= before.push(seq![hs@[i as int]]));
            i = i + 1;
        }
        let items = indices(hs.len());
        let order = sort_by_keys(&items, &keys);
        let ghost ks = keys.deep_view();
        let mut out: Vec<u64> = Vec::new();
        let mut k: usize = 0;
        while k < order.len()
            invariant
                k <= order@.len(),
                crate::order::keyed(order@, hs@.len()),
                out@ =~= Seq::new(k as nat, |j: int| hs@[order@[j] as int]),
            decreases order@.len() - k,
        {
            assert(order@[k as int] < hs@.len());
            out.push(hs[order[k]]);
            k = k + 1;
        }
        proof {
            crate::order::law_sort(items@, ks);
            crate::order::lemma_sort_no_duplicates(items@, ks);
            assert forall|i: int, j: int| 0 <= i < j < out@.len() implies #[trigger] out@[i]
                < #[trigger] out@[j] by {
                let a = order@[i];
                let b = order@[j];
                assert(crate::order::key_le(ks[a as int], ks[b as int]));
                assert(ks[a as int] == seq![hs@[a as int]]);
                assert(ks[b as int] == seq![hs@[b as int]]);
                assert(hs@[a as int] != hs@[b as int]);
            }
            assert forall|h: u64| out@.contains(h) <==> self.set@.contains(h) by {
                if out@.contains(h) {
                    let i = choose|i: int| 0 <= i < out@.len() && out@[i] == h;
                    assert(hs@[order@[i] as int] == h);
                    assert(hs@.to_set().contains(h));
                }
                if self.set@.contains(h) {
                    assert(hs@.to_set().contains(h));
                    let j = choose|j: int| 0 <= j < hs@.len() && hs@[j] == h;
                    assert(items@[j] == j as usize);
                    assert(items@.contains(j as usize));
                    assert(order@.contains(j as usize));
                    let i = choose|i: int| 0 <= i < order@.len() && order@[i] == j as usize;
                    assert(out@[i] == h);
                }
            }
        }
        out
    }

    /// What to write to disk: nothing where nothing changed since the last write, else the hashes,
    /// in ascending order.
    pub fn unsaved(&self) -> (r: Option<OnDisk>)
        ensures
            r is Some == self@.dirty,
            r matches Some(d) ==> d.version == FILE_VERSION && lists(
                d.viewed.deep_view(),
                self@.set,
            ),
    {
        if !self.dirty {
            return None;
        }
        let hs = self.sorted_hashes();
        let mut out: Vec<String> = Vec::new();
        let mut i: usize = 0;
        while i < hs.len()
            invariant
                i == out@.len() <= hs@.len(),
                forall|j: int| 0 <= j < i ==> #[trigger] out.deep_view()[j] == hash_text_v(hs@[j]),
            decreases hs@.len() - i,
        {
            let ghost before = out.deep_view();
            let t = hex(hs[i], 16);
            out.push(t);
            assert(out.deep_view() =~= before.push(t@));
            i = i + 1;
        }
        assert(writes(out.deep_view(), hs@));
        Some(OnDisk { version: FILE_VERSION, viewed: out })
    }

    /// Notes that everything has been written to disk.
    pub fn saved(&mut self)
        ensures
            final(self)@ == (ViewedV { set: old(self)@.set, dirty: false }),
    {
        self.dirty = false;
    }
}

} // verus!
