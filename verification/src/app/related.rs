//! Which files of a changeset refer to symbols of another.
use vstd::prelude::*;

use crate::path;
use crate::syntax;
use crate::app::rows::{RelatedEntry, RelatedV};
use crate::git;
use crate::git::Repo;
use crate::git::model::{FileChange, FileV};
use crate::group;
use crate::order;
use crate::order::{indices, sort_by_keys};
use crate::path::push_path_key;
use crate::syntax::{FactsV, FileFacts, Lang, Syntax, Verb};
use crate::text::{same};

verus! {

broadcast use vstd::seq_lib::group_seq_properties;

/// The contents of both sides of a file, where they exist.
pub struct Blobs {
    pub old: Option<Vec<u8>>,
    pub new: Option<Vec<u8>>,
}

/// The mathematical value of [`Blobs`].
#[verifier::ext_equal]
pub ghost struct BlobsV {
    pub old: Option<Seq<u8>>,
    pub new: Option<Seq<u8>>,
}

impl DeepView for Blobs {
    type V = BlobsV;

    open spec fn deep_view(&self) -> BlobsV {
        BlobsV { old: git::bytes_view(&self.old), new: git::bytes_view(&self.new) }
    }
}

// ---- Facts ----

/// What a file defines and uses, by its new side, or by its old side where that is empty.
pub open spec fn file_facts_v(f: FileV, b: BlobsV) -> FactsV {
    match Lang::from_path_v(f.path) {
        Some(lang) => {
            let texts = git::file_texts_v(f, b.old, b.new);
            syntax::analyze_v(
                if texts.1.len() > 0 {
                    texts.1
                } else {
                    texts.0
                },
                lang,
            )
        },
        None => syntax::no_facts_v(),
    }
}

/// The facts of all files.
pub open spec fn all_facts_v(files: Seq<FileV>, blobs: Seq<BlobsV>) -> Seq<FactsV> {
    Seq::new(files.len(), |i: int| file_facts_v(files[i], blobs[i]))
}

/// The facts of a file.
fn file_facts(syntax: &Syntax, f: &FileChange, b: &Blobs) -> (r: FileFacts)
    ensures
        r.deep_view() == file_facts_v(f.deep_view(), b.deep_view()),
{
    match Lang::from_path(f.path.as_str()) {
        Some(lang) => {
            let (old_text, new_text) = Repo::file_texts(f, &b.old, &b.new);
            if !new_text.as_str().is_empty() {
                syntax.analyze(new_text.as_str(), lang)
            } else {
                syntax.analyze(old_text.as_str(), lang)
            }
        },
        None => FileFacts::default(),
    }
}

/// The facts of all files.
pub fn all_facts(syntax: &Syntax, files: &Vec<FileChange>, blobs: &Vec<Blobs>) -> (r: Vec<FileFacts>)
    requires
        files@.len() == blobs@.len(),
    ensures
        r.deep_view() == all_facts_v(files.deep_view(), blobs.deep_view()),
{
    let ghost fs = files.deep_view();
    let ghost bs = blobs.deep_view();
    let mut out: Vec<FileFacts> = Vec::new();
    let mut i: usize = 0;
    while i < files.len()
        invariant
            i <= files@.len() == blobs@.len(),
            fs == files.deep_view(),
            bs == blobs.deep_view(),
            out.deep_view() =~= all_facts_v(fs, bs).take(i as int),
        decreases files@.len() - i,
    {
        let ghost before = out.deep_view();
        assert(fs[i as int] == files@[i as int].deep_view());
        assert(bs[i as int] == blobs@[i as int].deep_view());
        let facts = file_facts(syntax, &files[i], &blobs[i]);
        out.push(facts);
        assert(out.deep_view() =~= before.push(all_facts_v(fs, bs)[i as int]));
        i = i + 1;
    }
    assert(out.deep_view() =~= all_facts_v(fs, bs));
    out
}

// ---- Relations ----

/// Those of the first `k` names that are in a set.
pub open spec fn among_v(names: Seq<Seq<char>>, set: Set<Seq<char>>, k: nat) -> Seq<Seq<char>>
    decreases k,
{
    if k == 0 {
        Seq::empty()
    } else {
        let before = among_v(names, set, (k - 1) as nat);
        if set.contains(names[k - 1]) {
            before.push(names[k - 1])
        } else {
            before
        }
    }
}

/// The first of the names, from `i` on, that is in a set.
pub open spec fn first_in_v(names: Seq<Seq<char>>, set: Set<Seq<char>>, i: int) -> Option<Seq<char>>
    decreases names.len() - i,
{
    if i >= names.len() {
        None
    } else if set.contains(names[i]) {
        Some(names[i])
    } else {
        first_in_v(names, set, i + 1)
    }
}

/// How a file refers to symbols that it uses, and one of them: a call says most, then an import.
pub open spec fn verb_v(matched: Seq<Seq<char>>, facts: FactsV) -> (Verb, Seq<char>) {
    match first_in_v(matched, facts.calls, 0) {
        Some(s) => (Verb::Calls, s),
        None => match first_in_v(matched, facts.imports, 0) {
            Some(s) => (Verb::Imports, s),
            None => (Verb::References, matched[0]),
        },
    }
}

/// How file `b` relates to the symbols of file `a`; nothing where it uses none of them.
pub open spec fn relation_v(facts: Seq<FactsV>, a: int, b: int) -> Option<RelatedV> {
    let names = facts[a].defines;
    let matched = among_v(names, facts[b].uses, names.len());
    if b == a || matched.len() == 0 {
        None
    } else {
        let (verb, sample) = verb_v(matched, facts[b]);
        Some(RelatedV { file_index: b, verb, count: matched.len() as int, sample })
    }
}

/// Those of the first `k` files that relate to file `a`.
pub open spec fn relations_v(facts: Seq<FactsV>, a: int, k: nat) -> Seq<RelatedV>
    decreases k,
{
    if k == 0 {
        Seq::empty()
    } else {
        let before = relations_v(facts, a, (k - 1) as nat);
        match relation_v(facts, a, k - 1) {
            Some(e) => before.push(e),
            None => before,
        }
    }
}

/// What relations are ranked by: the count, the largest first, then the path.
pub open spec fn rank_keys_v(files: Seq<FileV>, entries: Seq<RelatedV>) -> Seq<Seq<u64>> {
    entries.map_values(
        |e: RelatedV|
            seq![(u64::MAX - e.count) as u64] + path::path_key_v(files[e.file_index].path),
    )
}

/// How many related files are shown.
pub const MAX_RELATED: usize = 3;

/// The files that relate most to file `a`.
pub open spec fn related_v(files: Seq<FileV>, facts: Seq<FactsV>, a: int) -> Seq<RelatedV> {
    let entries = relations_v(facts, a, facts.len());
    let ranked = group::pick_v(
        entries,
        order::sort_v(order::upto(entries.len()), rank_keys_v(files, entries)),
    );
    ranked.take(
        if ranked.len() < MAX_RELATED {
            ranked.len() as int
        } else {
            MAX_RELATED as int
        },
    )
}

/// Is a name in a list?
fn listed(list: &Vec<String>, name: &str) -> (r: bool)
    ensures
        r == list.deep_view().to_set().contains(name@),
{
    let mut i: usize = 0;
    while i < list.len()
        invariant
            i <= list@.len(),
            forall|j: int| 0 <= j < i ==> #[trigger] list.deep_view()[j] != name@,
        decreases list@.len() - i,
    {
        assert(list.deep_view()[i as int] == list@[i as int]@);
        if same(list[i].as_str(), name) {
            assert(list.deep_view().contains(name@));
            return true;
        }
        i = i + 1;
    }
    false
}

/// The first of the names that is in a list.
fn first_in(names: &Vec<String>, list: &Vec<String>) -> (r: Option<String>)
    ensures
        r.deep_view() == first_in_v(names.deep_view(), list.deep_view().to_set(), 0),
{
    let ghost ns = names.deep_view();
    let ghost set = list.deep_view().to_set();
    let mut i: usize = 0;
    while i < names.len()
        invariant
            i <= names@.len(),
            ns == names.deep_view(),
            set == list.deep_view().to_set(),
            first_in_v(ns, set, i as int) == first_in_v(ns, set, 0),
        decreases names@.len() - i,
    {
        assert(ns[i as int] == names@[i as int]@);
        if listed(list, names[i].as_str()) {
            return Some(names[i].clone());
        }
        i = i + 1;
    }
    None
}

/// Those of the names that are in a list.
fn among(names: &Vec<String>, list: &Vec<String>) -> (r: Vec<String>)
    ensures
        r.deep_view() == among_v(names.deep_view(), list.deep_view().to_set(), names@.len()),
{
    let ghost ns = names.deep_view();
    let ghost set = list.deep_view().to_set();
    let mut out: Vec<String> = Vec::new();
    assert(out.deep_view() =~= Seq::empty());
    let mut i: usize = 0;
    while i < names.len()
        invariant
            i <= names@.len(),
            ns == names.deep_view(),
            set == list.deep_view().to_set(),
            out.deep_view() == among_v(ns, set, i as nat),
        decreases names@.len() - i,
    {
        let ghost before = out.deep_view();
        assert(ns[i as int] == names@[i as int]@);
        if listed(list, names[i].as_str()) {
            out.push(names[i].clone());
            assert(out.deep_view() =~= before.push(ns[i as int]));
        }
        i = i + 1;
    }
    out
}

/// How file `b` relates to the symbols of file `a`.
fn relation(facts: &Vec<FileFacts>, a: usize, b: usize) -> (r: Option<RelatedEntry>)
    requires
        a < facts@.len(),
        b < facts@.len(),
    ensures
        r.deep_view() == relation_v(facts.deep_view(), a as int, b as int),
{
    let ghost fs = facts.deep_view();
    assert(fs[a as int] == facts@[a as int].deep_view());
    assert(fs[b as int] == facts@[b as int].deep_view());
    if b == a {
        return None;
    }
    let matched = among(&facts[a].defines, &facts[b].uses);
    if matched.len() == 0 {
        return None;
    }
    let count: usize = matched.len();
    let called = first_in(&matched, &facts[b].calls);
    let (verb, sample): (Verb, String) = match called {
        Some(s) => (Verb::Calls, s),
        None => {
            let imported = first_in(&matched, &facts[b].imports);
            match imported {
                Some(s) => (Verb::Imports, s),
                None => {
                    assert(matched.deep_view()[0] == matched@[0]@);
                    (Verb::References, matched[0].clone())
                },
            }
        },
    };
    Some(RelatedEntry { file_index: b, verb, count, sample })
}

impl Clone for RelatedEntry {
    fn clone(&self) -> (r: Self)
        ensures
            r.deep_view() == self.deep_view(),
    {
        RelatedEntry {
            file_index: self.file_index,
            verb: self.verb,
            count: self.count,
            sample: self.sample.clone(),
        }
    }
}

/// The files that relate most to file `a`: those of the whole changeset that use the most of the
/// symbols that it defines.
pub fn compute_related(files: &Vec<FileChange>, facts: &Vec<FileFacts>, a: usize) -> (r: Vec<
    RelatedEntry,
>)
    requires
        a < facts@.len() == files@.len(),
    ensures
        r.deep_view() == related_v(files.deep_view(), facts.deep_view(), a as int),
{
    let ghost fs = files.deep_view();
    let ghost fa = facts.deep_view();
    let mut entries: Vec<RelatedEntry> = Vec::new();
    let mut keys: Vec<Vec<u64>> = Vec::new();
    assert(entries.deep_view() =~= Seq::empty());
    assert(keys.deep_view() =~= rank_keys_v(fs, entries.deep_view()));
    let mut b: usize = 0;
    while b < facts.len()
        invariant
            b <= facts@.len() == files@.len(),
            a < facts@.len(),
            fs == files.deep_view(),
            fa == facts.deep_view(),
            entries@.len() == keys@.len(),
            entries.deep_view() == relations_v(fa, a as int, b as nat),
            keys.deep_view() == rank_keys_v(fs, entries.deep_view()),
        decreases facts@.len() - b,
    {
        let ghost before = entries.deep_view();
        let found = relation(facts, a, b);
        if let Some(e) = found {
            let ghost ev = e.deep_view();
            assert(relation_v(fa, a as int, b as int) == Some(ev));
            assert(fs[b as int] == files@[b as int].deep_view());
            let mut key: Vec<u64> = Vec::new();
            key.push(u64::MAX - e.count as u64);
            push_path_key(&mut key, files[b].path.as_str());
            let ghost kv = seq![(u64::MAX - ev.count) as u64] + path::path_key_v(fs[b as int].path);
            assert(key@ =~= kv);
            assert(key.deep_view() =~= key@);
            let ghost keys_before = keys.deep_view();
            keys.push(key);
            entries.push(e);
            assert(entries.deep_view() =~= before.push(ev));
            assert(keys.deep_view() =~= keys_before.push(kv));
            assert(rank_keys_v(fs, before.push(ev)) =~= rank_keys_v(fs, before).push(kv));
        }
        b = b + 1;
    }
    let ghost ev = entries.deep_view();
    let items = indices(entries.len());
    let ranked = sort_by_keys(&items, &keys);
    let ghost want = related_v(fs, fa, a as int);
    let mut out: Vec<RelatedEntry> = Vec::new();
    let mut i: usize = 0;
    while i < ranked.len() && i < MAX_RELATED
        invariant
            i <= ranked@.len() == entries@.len(),
            i <= MAX_RELATED,
            order::keyed(ranked@, entries@.len()),
            ev == entries.deep_view(),
            out.deep_view() =~= group::pick_v(ev, ranked@).take(i as int),
        decreases ranked@.len() - i,
    {
        let ghost before = out.deep_view();
        assert(ranked@[i as int] < entries@.len());
        let at: usize = ranked[i];
        assert(ev[at as int] == entries@[at as int].deep_view());
        out.push(entries[at].clone());
        assert(out.deep_view() =~= before.push(ev[at as int]));
        i = i + 1;
    }
    assert(out.deep_view() =~= want);
    out
}

/// At most a few related files are shown, and never the file itself.
pub proof fn law_related(files: Seq<FileV>, facts: Seq<FactsV>, a: int)
    requires
        0 <= a < facts.len(),
    ensures
        related_v(files, facts, a).len() <= MAX_RELATED,
        forall|i: int|
            0 <= i < related_v(files, facts, a).len() ==> (#[trigger] related_v(
                files,
                facts,
                a,
            )[i]).file_index != a && 0 <= related_v(files, facts, a)[i].file_index < facts.len()
                && related_v(files, facts, a)[i].count > 0,
{
    let entries = relations_v(facts, a, facts.len());
    lemma_relations(facts, a, facts.len());
    let keys = rank_keys_v(files, entries);
    let order = order::sort_v(order::upto(entries.len()), keys);
    order::law_sort(order::upto(entries.len()), keys);
    let ranked = group::pick_v(entries, order);
    let shown = related_v(files, facts, a);
    assert forall|i: int| 0 <= i < shown.len() implies (#[trigger] shown[i]).file_index != a && 0
        <= shown[i].file_index < facts.len() && shown[i].count > 0 by {
        assert(order.contains(order[i]));
        assert(order::upto(entries.len()).contains(order[i]));
        assert(shown[i] == entries[order[i] as int]);
    }
}

/// Of some names no more are in a set than there are.
proof fn lemma_among_len(names: Seq<Seq<char>>, set: Set<Seq<char>>, k: nat)
    ensures
        among_v(names, set, k).len() <= k,
    decreases k,
{
    if k > 0 {
        lemma_among_len(names, set, (k - 1) as nat);
    }
}

/// A file uses no more symbols than are defined.
proof fn lemma_counts(facts: Seq<FactsV>, a: int, k: nat)
    requires
        k <= facts.len(),
    ensures
        forall|i: int|
            0 <= i < relations_v(facts, a, k).len() ==> 0 <= (#[trigger] relations_v(
                facts,
                a,
                k,
            )[i]).count <= facts[a].defines.len(),
    decreases k,
{
    if k > 0 {
        lemma_counts(facts, a, (k - 1) as nat);
        lemma_among_len(facts[a].defines, facts[k - 1].uses, facts[a].defines.len());
    }
}

/// Of two relations, the one that is ranked first has no fewer names.
proof fn lemma_ranked(files: Seq<FileV>, entries: Seq<RelatedV>, x: int, y: int)
    requires
        0 <= x < entries.len(),
        0 <= y < entries.len(),
        0 <= entries[x].count <= u64::MAX,
        0 <= entries[y].count <= u64::MAX,
        order::key_le(rank_keys_v(files, entries)[x], rank_keys_v(files, entries)[y]),
    ensures
        entries[x].count >= entries[y].count,
{
    let keys = rank_keys_v(files, entries);
    assert(keys[x][0] == (u64::MAX - entries[x].count) as u64);
    assert(keys[y][0] == (u64::MAX - entries[y].count) as u64);
    assert(keys[x].len() > 0 && keys[y].len() > 0);
}

/// The related files are ranked: one that uses more of the symbols comes first.
pub proof fn law_related_are_ranked(files: Seq<FileV>, facts: Seq<FactsV>, a: int, i: int, j: int)
    requires
        facts[a].defines.len() <= u64::MAX,
        0 <= i < j < related_v(files, facts, a).len(),
    ensures
        related_v(files, facts, a)[i].count >= related_v(files, facts, a)[j].count,
{
    let entries = relations_v(facts, a, facts.len());
    lemma_counts(facts, a, facts.len());
    let keys = rank_keys_v(files, entries);
    let order = order::sort_v(order::upto(entries.len()), keys);
    order::law_sort(order::upto(entries.len()), keys);
    let (x, y) = (order[i], order[j]);
    assert(order.contains(x) && order.contains(y));
    assert(order::upto(entries.len()).contains(x) && order::upto(entries.len()).contains(y));
    assert(order::key_le(keys[x as int], keys[y as int]));
    lemma_ranked(files, entries, x as int, y as int);
}

proof fn lemma_relations(facts: Seq<FactsV>, a: int, k: nat)
    requires
        k <= facts.len(),
    ensures
        forall|i: int|
            0 <= i < relations_v(facts, a, k).len() ==> (#[trigger] relations_v(
                facts,
                a,
                k,
            )[i]).file_index != a && 0 <= relations_v(facts, a, k)[i].file_index < k
                && relations_v(facts, a, k)[i].count > 0,
    decreases k,
{
    if k > 0 {
        lemma_relations(facts, a, (k - 1) as nat);
    }
}

// ---- What a relation says ----

proof fn lemma_among(names: Seq<Seq<char>>, set: Set<Seq<char>>, k: nat)
    requires
        k <= names.len(),
    ensures
        among_v(names, set, k) == names.take(k as int).filter(|t: Seq<char>| set.contains(t)),
    decreases k,
{
    reveal(Seq::filter);
    if k > 0 {
        lemma_among(names, set, (k - 1) as nat);
        assert(names.take(k as int).drop_last() =~= names.take(k - 1));
        assert(names.take(k as int).last() == names[k - 1]);
    } else {
        assert(names.take(0) =~= Seq::empty());
    }
}

proof fn lemma_first_in(names: Seq<Seq<char>>, set: Set<Seq<char>>, i: int)
    requires
        0 <= i <= names.len(),
    ensures
        first_in_v(names, set, i) matches Some(t) ==> set.contains(t) && names.contains(t),
        first_in_v(names, set, i) is None ==> forall|j: int|
            i <= j < names.len() ==> !set.contains(#[trigger] names[j]),
    decreases names.len() - i,
{
    if i < names.len() {
        if set.contains(names[i]) {
            assert(names.contains(names[i]));
        } else {
            lemma_first_in(names, set, i + 1);
        }
    }
}

/// A file is related to another where it uses a name that the other defines. The relation counts
/// those names and gives one of them: one that it calls where there is such a name, else one that
/// it imports, else the first.
pub proof fn law_relation(facts: Seq<FactsV>, a: int, b: int)
    requires
        0 <= a < facts.len(),
        0 <= b < facts.len(),
    ensures
        ({
            let names = facts[a].defines;
            let used = names.filter(|t: Seq<char>| facts[b].uses.contains(t));
            let called = exists|i: int|
                0 <= i < names.len() && facts[b].uses.contains(#[trigger] names[i])
                    && facts[b].calls.contains(names[i]);
            let imported = exists|i: int|
                0 <= i < names.len() && facts[b].uses.contains(#[trigger] names[i])
                    && facts[b].imports.contains(names[i]);
            &&& relation_v(facts, a, b) is Some <==> a != b && exists|i: int|
                0 <= i < names.len() && facts[b].uses.contains(#[trigger] names[i])
            &&& relation_v(facts, a, b) matches Some(e) ==> {
                &&& e.file_index == b
                &&& e.count == used.len()
                &&& names.contains(e.sample) && facts[b].uses.contains(e.sample)
                &&& e.verb == Verb::Calls <==> called
                &&& e.verb == Verb::Imports <==> !called && imported
                &&& e.verb == Verb::Calls ==> facts[b].calls.contains(e.sample)
                &&& e.verb == Verb::Imports ==> facts[b].imports.contains(e.sample)
                &&& e.verb == Verb::References ==> e.sample == used[0]
            }
        }),
{
    let names = facts[a].defines;
    let uses = facts[b].uses;
    let pred = |t: Seq<char>| uses.contains(t);
    let used = names.filter(pred);
    lemma_among(names, uses, names.len());
    assert(names.take(names.len() as int) =~= names);
    let matched = among_v(names, uses, names.len());
    lemma_first_in(matched, facts[b].calls, 0);
    lemma_first_in(matched, facts[b].imports, 0);
    assert forall|t: Seq<char>| #[trigger] matched.contains(t) implies names.contains(t)
        && uses.contains(t) by {
        order::lemma_filtered(names, pred, t);
    }
    assert forall|i: int| 0 <= i < names.len() && uses.contains(#[trigger] names[i]) implies
        matched.contains(names[i]) by {
        order::lemma_filtered(names, pred, names[i]);
        assert(names.contains(names[i]));
    }
    if matched.len() > 0 {
        assert(matched.contains(matched[0]));
        let i = choose|i: int| 0 <= i < names.len() && names[i] == matched[0];
        assert(uses.contains(names[i]));
    }
    if let Some(e) = relation_v(facts, a, b) {
        assert(matched.contains(e.sample));
        let s = choose|s: int| 0 <= s < names.len() && names[s] == e.sample;
        assert(uses.contains(names[s]));
        if exists|i: int|
            0 <= i < names.len() && uses.contains(#[trigger] names[i]) && facts[b].calls.contains(
                names[i],
            ) {
            let i = choose|i: int|
                0 <= i < names.len() && uses.contains(#[trigger] names[i])
                    && facts[b].calls.contains(names[i]);
            let m = choose|m: int| 0 <= m < matched.len() && matched[m] == names[i];
            assert(facts[b].calls.contains(matched[m]));
        }
        if exists|i: int|
            0 <= i < names.len() && uses.contains(#[trigger] names[i]) && facts[b].imports.contains(
                names[i],
            ) {
            let i = choose|i: int|
                0 <= i < names.len() && uses.contains(#[trigger] names[i])
                    && facts[b].imports.contains(names[i]);
            let m = choose|m: int| 0 <= m < matched.len() && matched[m] == names[i];
            assert(facts[b].imports.contains(matched[m]));
        }
    }
}

proof fn lemma_relations_all(facts: Seq<FactsV>, a: int, k: nat, e: RelatedV)
    requires
        k <= facts.len(),
    ensures
        relations_v(facts, a, k).contains(e) <==> exists|b: int|
            0 <= b < k && #[trigger] relation_v(facts, a, b) == Some(e),
    decreases k,
{
    if k > 0 {
        let p = (k - 1) as nat;
        lemma_relations_all(facts, a, p, e);
        let before = relations_v(facts, a, p);
        let all = relations_v(facts, a, k);
        if before.contains(e) {
            let m = choose|m: int| 0 <= m < before.len() && before[m] == e;
            assert(all[m] == e);
            let b = choose|b: int| 0 <= b < p && #[trigger] relation_v(facts, a, b) == Some(e);
            assert(relation_v(facts, a, b) == Some(e));
        }
        if relation_v(facts, a, k - 1) == Some(e) {
            assert(all[all.len() - 1] == e);
        }
        if all.contains(e) && !before.contains(e) {
            let m = choose|m: int| 0 <= m < all.len() && all[m] == e;
            if m < before.len() {
                assert(before[m] == e);
            }
            assert(relation_v(facts, a, k - 1) == Some(e));
        }
    }
}

/// The related files that are shown: all of them where there are at most three, else three, and
/// none is left out that has more names in common than one that is shown.
pub proof fn law_related_shown(files: Seq<FileV>, facts: Seq<FactsV>, a: int, b: int)
    requires
        0 <= a < facts.len(),
        0 <= b < facts.len() <= usize::MAX,
        facts[a].defines.len() <= u64::MAX,
        relation_v(facts, a, b) is Some,
    ensures
        ({
            let shown = related_v(files, facts, a);
            let e = relation_v(facts, a, b)->0;
            &&& shown.contains(e) || shown.len() == 3
            &&& !shown.contains(e) ==> forall|i: int|
                0 <= i < shown.len() ==> (#[trigger] shown[i]).count >= e.count
        }),
{
    let e = relation_v(facts, a, b)->0;
    let entries = relations_v(facts, a, facts.len());
    lemma_relations_all(facts, a, facts.len(), e);
    assert(entries.contains(e));
    lemma_counts(facts, a, facts.len());
    lemma_relations_fit(facts, a, facts.len());
    let keys = rank_keys_v(files, entries);
    let items = order::upto(entries.len());
    let at = order::sort_v(items, keys);
    order::law_sort(items, keys);
    let ranked = group::pick_v(entries, at);
    let shown = related_v(files, facts, a);
    let m = choose|m: int| 0 <= m < entries.len() && entries[m] == e;
    assert(items[m] == m as usize);
    assert(items.contains(m as usize));
    assert(at.contains(m as usize));
    let p = choose|p: int| 0 <= p < at.len() && at[p] == m as usize;
    assert(ranked[p] == e);
    if p < 3 {
        assert(shown[p] == e);
    } else {
        assert forall|i: int| 0 <= i < shown.len() implies (#[trigger] shown[i]).count
            >= e.count by {
            let (x, y) = (at[i], at[p]);
            assert(at.contains(x) && at.contains(y));
            assert(items.contains(x) && items.contains(y));
            assert(order::key_le(keys[x as int], keys[y as int]));
            lemma_ranked(files, entries, x as int, y as int);
        }
    }
}

proof fn lemma_relations_fit(facts: Seq<FactsV>, a: int, k: nat)
    ensures
        relations_v(facts, a, k).len() <= k,
    decreases k,
{
    if k > 0 {
        lemma_relations_fit(facts, a, (k - 1) as nat);
    }
}

/// What a file defines and uses is read from its new side; from its old side where the new one has
/// no text; and not at all where its language is unknown.
pub proof fn law_facts_of_a_side(f: FileV, b: BlobsV, other: BlobsV)
    ensures
        ({
            let texts = git::file_texts_v(f, b.old, b.new);
            let others = git::file_texts_v(f, other.old, other.new);
            &&& texts.1.len() > 0 && b.new == other.new ==> file_facts_v(f, b) == file_facts_v(
                f,
                other,
            )
            &&& texts.1.len() == 0 && others.1.len() > 0 && texts.0 == others.1 ==> file_facts_v(
                f,
                b,
            ) == file_facts_v(f, other)
            &&& Lang::from_path_v(f.path) is None ==> file_facts_v(f, b) == syntax::no_facts_v()
            &&& Lang::from_path_v(f.path) matches Some(lang) ==> (texts.1.len() > 0
                ==> file_facts_v(f, b) == syntax::analyze_v(texts.1, lang))
        }),
{
}

} // verus!
