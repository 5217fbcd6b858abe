//! Stable sorting by keys that are compared number by number.
use vstd::prelude::*;

verus! {

broadcast use vstd::seq_lib::group_seq_properties;

/// Key `a` comes before key `b` or equals it: at the first place where they differ `a` has the
/// smaller number or has ended.
pub open spec fn key_le(a: Seq<u64>, b: Seq<u64>) -> bool
    decreases a.len(),
{
    if a.len() == 0 {
        true
    } else if b.len() == 0 {
        false
    } else {
        a[0] < b[0] || (a[0] == b[0] && key_le(a.drop_first(), b.drop_first()))
    }
}

/// Of two keys one comes before the other or equals it.
pub proof fn lemma_key_total(a: Seq<u64>, b: Seq<u64>)
    ensures
        key_le(a, b) || key_le(b, a),
    decreases a.len(),
{
    if a.len() > 0 && b.len() > 0 && a[0] == b[0] {
        lemma_key_total(a.drop_first(), b.drop_first());
    }
}

/// Two keys that come before each other are equal.
pub proof fn lemma_key_antisymmetric(a: Seq<u64>, b: Seq<u64>)
    requires
        key_le(a, b),
        key_le(b, a),
    ensures
        a == b,
    decreases a.len(),
{
    if a.len() > 0 && b.len() > 0 {
        lemma_key_antisymmetric(a.drop_first(), b.drop_first());
        assert(a =~= seq![a[0]] + a.drop_first());
        assert(b =~= seq![b[0]] + b.drop_first());
    } else {
        assert(a =~= b);
    }
}

/// The order of keys is transitive.
pub proof fn lemma_key_transitive(a: Seq<u64>, b: Seq<u64>, c: Seq<u64>)
    requires
        key_le(a, b),
        key_le(b, c),
    ensures
        key_le(a, c),
    decreases a.len(),
{
    if a.len() > 0 && b.len() > 0 && c.len() > 0 && a[0] == b[0] && b[0] == c[0] {
        lemma_key_transitive(a.drop_first(), b.drop_first(), c.drop_first());
    }
}

/// Does key `a` come before key `b`, or equal it?
pub fn key_leq(a: &Vec<u64>, b: &Vec<u64>) -> (r: bool)
    ensures
        r == key_le(a@, b@),
{
    let mut i: usize = 0;
    assert(a@.skip(0) =~= a@);
    assert(b@.skip(0) =~= b@);
    while i < a.len() && i < b.len()
        invariant
            i <= a@.len(),
            i <= b@.len(),
            key_le(a@, b@) == key_le(a@.skip(i as int), b@.skip(i as int)),
        decreases a@.len() - i,
    {
        if a[i] < b[i] {
            return true;
        }
        if a[i] > b[i] {
            return false;
        }
        assert(a@.skip(i as int).drop_first() =~= a@.skip(i + 1));
        assert(b@.skip(i as int).drop_first() =~= b@.skip(i + 1));
        i = i + 1;
    }
    i == a.len()
}

/// `x` put into sorted indices, behind those whose key does not come after its own.
pub open spec fn insert_v(sorted: Seq<usize>, x: usize, keys: Seq<Seq<u64>>) -> Seq<usize>
    decreases sorted.len(),
{
    if sorted.len() == 0 {
        seq![x]
    } else if key_le(keys[sorted.last() as int], keys[x as int]) {
        sorted.push(x)
    } else {
        insert_v(sorted.drop_last(), x, keys).push(sorted.last())
    }
}

/// Indices sorted by their keys; those with equal keys keep their order.
pub open spec fn sort_v(items: Seq<usize>, keys: Seq<Seq<u64>>) -> Seq<usize>
    decreases items.len(),
{
    if items.len() == 0 {
        Seq::empty()
    } else {
        insert_v(sort_v(items.drop_last(), keys), items.last(), keys)
    }
}

/// The keys stand in order.
pub open spec fn sorted(items: Seq<usize>, keys: Seq<Seq<u64>>) -> bool {
    forall|i: int, j: int|
        0 <= i < j < items.len() ==> key_le(
            keys[(#[trigger] items[i]) as int],
            keys[(#[trigger] items[j]) as int],
        )
}

/// Where insertion puts an element.
proof fn lemma_insert_at(s: Seq<usize>, x: usize, keys: Seq<Seq<u64>>, p: int)
    requires
        0 <= p <= s.len(),
        p > 0 ==> key_le(keys[s[p - 1] as int], keys[x as int]),
        forall|j: int| p <= j < s.len() ==> !key_le(keys[(#[trigger] s[j]) as int], keys[x as int]),
    ensures
        insert_v(s, x, keys) == s.take(p).push(x) + s.skip(p),
    decreases s.len(),
{
    if s.len() == 0 {
        assert(insert_v(s, x, keys) =~= s.take(p).push(x) + s.skip(p));
    } else if p == s.len() {
        assert(insert_v(s, x, keys) =~= s.take(p).push(x) + s.skip(p));
    } else {
        assert(!key_le(keys[s[s.len() - 1] as int], keys[x as int]));
        lemma_insert_at(s.drop_last(), x, keys, p);
        assert(s.drop_last().take(p) =~= s.take(p));
        assert(insert_v(s, x, keys) =~= s.take(p).push(x) + s.skip(p));
    }
}

/// Insertion into sorted indices keeps them sorted and adds just the one.
proof fn lemma_insert(s: Seq<usize>, x: usize, keys: Seq<Seq<u64>>)
    requires
        sorted(s, keys),
    ensures
        sorted(insert_v(s, x, keys), keys),
        insert_v(s, x, keys).to_multiset() == s.to_multiset().insert(x),
        insert_v(s, x, keys).len() == s.len() + 1,
        forall|y: usize| insert_v(s, x, keys).contains(y) <==> (s.contains(y) || y == x),
    decreases s.len(),
{
    let r = insert_v(s, x, keys);
    if s.len() == 0 {
        assert(r =~= s.push(x));
        assert(r[0] == x);
        s.to_multiset_ensures();
    } else if key_le(keys[s.last() as int], keys[x as int]) {
        s.to_multiset_ensures();
        assert forall|i: int, j: int| 0 <= i < j < r.len() implies key_le(
            keys[(#[trigger] r[i]) as int],
            keys[(#[trigger] r[j]) as int],
        ) by {
            if j == s.len() && i < s.len() - 1 {
                assert(key_le(keys[s[i] as int], keys[s[s.len() - 1] as int]));
                lemma_key_transitive(keys[s[i] as int], keys[s.last() as int], keys[x as int]);
            }
        }
        assert forall|y: usize| r.contains(y) <==> (s.contains(y) || y == x) by {
            if s.contains(y) {
                let i = choose|i: int| 0 <= i < s.len() && s[i] == y;
                assert(r[i] == y);
            }
            assert(r[s.len() as int] == x);
        }
    } else {
        let t = s.drop_last();
        let u = insert_v(t, x, keys);
        lemma_insert(t, x, keys);
        lemma_key_total(keys[s.last() as int], keys[x as int]);
        u.to_multiset_ensures();
        t.to_multiset_ensures();
        assert(s =~= t.push(s.last()));
        assert(t.to_multiset().insert(x).insert(s.last()) =~= t.to_multiset().insert(
            s.last(),
        ).insert(x));
        assert forall|i: int, j: int| 0 <= i < j < r.len() implies key_le(
            keys[(#[trigger] r[i]) as int],
            keys[(#[trigger] r[j]) as int],
        ) by {
            if j == u.len() {
                let y = u[i];
                assert(u.contains(y));
                if y != x {
                    assert(t.contains(y));
                    let k = choose|k: int| 0 <= k < t.len() && t[k] == y;
                    assert(s[k] == y);
                    assert(key_le(keys[s[k] as int], keys[s[s.len() - 1] as int]));
                }
            }
        }
        assert forall|y: usize| r.contains(y) <==> (s.contains(y) || y == x) by {
            if s.contains(y) {
                let i = choose|i: int| 0 <= i < s.len() && s[i] == y;
                if i < t.len() {
                    assert(t[i] == y);
                    assert(t.contains(y));
                    assert(u.contains(y));
                    let k = choose|k: int| 0 <= k < u.len() && u[k] == y;
                    assert(r[k] == y);
                } else {
                    assert(r[u.len() as int] == y);
                }
            }
            if y == x {
                assert(u.contains(x));
                let k = choose|k: int| 0 <= k < u.len() && u[k] == x;
                assert(r[k] == x);
            }
            if r.contains(y) {
                let k = choose|k: int| 0 <= k < r.len() && r[k] == y;
                if k < u.len() {
                    assert(u.contains(y));
                    if t.contains(y) {
                        let i = choose|i: int| 0 <= i < t.len() && t[i] == y;
                        assert(s[i] == y);
                    }
                } else {
                    assert(s[s.len() - 1] == y);
                }
            }
        }
    }
}

/// Sorting puts the indices in order of their keys, and loses and adds none.
pub proof fn law_sort(items: Seq<usize>, keys: Seq<Seq<u64>>)
    ensures
        sorted(sort_v(items, keys), keys),
        sort_v(items, keys).to_multiset() == items.to_multiset(),
        sort_v(items, keys).len() == items.len(),
        forall|y: usize| sort_v(items, keys).contains(y) <==> items.contains(y),
    decreases items.len(),
{
    if items.len() > 0 {
        let t = items.drop_last();
        law_sort(t, keys);
        lemma_insert(sort_v(t, keys), items.last(), keys);
        t.to_multiset_ensures();
        assert(items =~= t.push(items.last()));
        assert forall|y: usize| sort_v(items, keys).contains(y) <==> items.contains(y) by {
            if items.contains(y) {
                let i = choose|i: int| 0 <= i < items.len() && items[i] == y;
                if i < t.len() {
                    assert(t[i] == y);
                }
            }
            if t.contains(y) {
                let i = choose|i: int| 0 <= i < t.len() && t[i] == y;
                assert(items[i] == y);
            }
            assert(items[items.len() - 1] == items.last());
        }
    }
}

/// Sorting indices that are all different gives indices that are all different.
pub proof fn lemma_sort_no_duplicates(items: Seq<usize>, keys: Seq<Seq<u64>>)
    requires
        items.no_duplicates(),
    ensures
        sort_v(items, keys).no_duplicates(),
{
    law_sort(items, keys);
    items.lemma_multiset_has_no_duplicates();
    sort_v(items, keys).lemma_multiset_has_no_duplicates_conv();
}

/// The indices from zero to `n`.
pub open spec fn upto(n: nat) -> Seq<usize> {
    Seq::new(n, |i: int| i as usize)
}

/// The indices from zero to `n`.
pub fn indices(n: usize) -> (r: Vec<usize>)
    ensures
        r@ == upto(n as nat),
        keyed(r@, n as nat),
        r@.no_duplicates(),
{
    let mut out: Vec<usize> = Vec::new();
    let mut i: usize = 0;
    while i < n
        invariant
            i <= n,
            out@ =~= upto(i as nat),
        decreases n - i,
    {
        out.push(i);
        i = i + 1;
    }
    out
}

/// Each index has a key.
pub open spec fn keyed(items: Seq<usize>, n: nat) -> bool {
    forall|i: int| 0 <= i < items.len() ==> #[trigger] items[i] < n
}

/// How many of the sorted indices have a key that does not come after that of `x`.
fn insert_at(s: &Vec<usize>, x: usize, keys: &Vec<Vec<u64>>) -> (p: usize)
    requires
        x < keys@.len(),
        keyed(s@, keys@.len()),
        sorted(s@, keys.deep_view()),
    ensures
        p <= s@.len(),
        insert_v(s@, x, keys.deep_view()) == s@.take(p as int).push(x) + s@.skip(p as int),
{
    let ghost ks = keys.deep_view();
    assert(ks[x as int] =~= keys@[x as int]@);
    let mut lo: usize = 0;
    let mut hi: usize = s.len();
    while lo < hi
        invariant
            lo <= hi <= s@.len(),
            x < keys@.len(),
            ks == keys.deep_view(),
            ks[x as int] == keys@[x as int]@,
            keyed(s@, keys@.len()),
            sorted(s@, ks),
            forall|j: int| 0 <= j < lo ==> key_le(ks[(#[trigger] s@[j]) as int], ks[x as int]),
            forall|j: int|
                hi <= j < s@.len() ==> !key_le(ks[(#[trigger] s@[j]) as int], ks[x as int]),
        decreases hi - lo,
    {
        let mid: usize = lo + (hi - lo) / 2;
        assert(s@[mid as int] < keys@.len());
        assert(ks[s@[mid as int] as int] =~= keys@[s@[mid as int] as int]@);
        if key_leq(&keys[s[mid]], &keys[x]) {
            assert forall|j: int| 0 <= j < mid + 1 implies key_le(
                ks[(#[trigger] s@[j]) as int],
                ks[x as int],
            ) by {
                if j < mid {
                    assert(key_le(ks[s@[j] as int], ks[s@[mid as int] as int]));
                    lemma_key_transitive(
                        ks[s@[j] as int],
                        ks[s@[mid as int] as int],
                        ks[x as int],
                    );
                }
            }
            lo = mid + 1;
        } else {
            assert forall|j: int| mid <= j < s@.len() implies !key_le(
                ks[(#[trigger] s@[j]) as int],
                ks[x as int],
            ) by {
                if key_le(ks[s@[j] as int], ks[x as int]) && j > mid {
                    assert(key_le(ks[s@[mid as int] as int], ks[s@[j] as int]));
                    lemma_key_transitive(
                        ks[s@[mid as int] as int],
                        ks[s@[j] as int],
                        ks[x as int],
                    );
                }
            }
            hi = mid;
        }
    }
    proof {
        lemma_insert_at(s@, x, ks, lo as int);
    }
    lo
}

/// The indices `items` sorted by their keys; those with equal keys keep their order.
pub fn sort_by_keys(items: &Vec<usize>, keys: &Vec<Vec<u64>>) -> (r: Vec<usize>)
    requires
        keyed(items@, keys@.len()),
    ensures
        r@ == sort_v(items@, keys.deep_view()),
        keyed(r@, keys@.len()),
        r@.len() == items@.len(),
{
    let ghost ks = keys.deep_view();
    let mut out: Vec<usize> = Vec::new();
    let mut i: usize = 0;
    while i < items.len()
        invariant
            i <= items@.len(),
            ks == keys.deep_view(),
            keyed(items@, keys@.len()),
            keyed(out@, keys@.len()),
            out@ == sort_v(items@.take(i as int), ks),
            out@.len() == i,
        decreases items@.len() - i,
    {
        let x: usize = items[i];
        assert(items@[i as int] < keys@.len());
        proof {
            law_sort(items@.take(i as int), ks);
        }
        let p: usize = insert_at(&out, x, keys);
        let ghost before = out@;
        out.insert(p, x);
        assert(items@.take(i + 1).drop_last() =~= items@.take(i as int));
        assert(out@ =~= before.take(p as int).push(x) + before.skip(p as int));
        assert forall|k: int| 0 <= k < out@.len() implies #[trigger] out@[k] < keys@.len() by {
            if k < p {
                assert(out@[k] == before[k]);
            } else if k > p {
                assert(out@[k] == before[k - 1]);
            }
        }
        i = i + 1;
    }
    assert(items@.take(items@.len() as int) =~= items@);
    out
}

/// Two lists with the same items have the same items when each is mapped.
pub proof fn lemma_map_multiset<A, B>(s: Seq<A>, t: Seq<A>, f: spec_fn(A) -> B)
    requires
        s.to_multiset() == t.to_multiset(),
    ensures
        s.map_values(f).to_multiset() == t.map_values(f).to_multiset(),
    decreases s.len(),
{
    s.to_multiset_ensures();
    t.to_multiset_ensures();
    if s.len() > 0 {
        let n = s.len() - 1;
        let x = s[n];
        assert(s.contains(x));
        assert(t.to_multiset().count(x) > 0);
        assert(t.contains(x));
        let k = choose|k: int| 0 <= k < t.len() && t[k] == x;
        vstd::seq_lib::to_multiset_remove(s, n);
        vstd::seq_lib::to_multiset_remove(t, k);
        lemma_map_multiset(s.remove(n), t.remove(k), f);
        vstd::seq_lib::to_multiset_remove(s.map_values(f), n);
        vstd::seq_lib::to_multiset_remove(t.map_values(f), k);
        assert(s.map_values(f).remove(n) =~= s.remove(n).map_values(f));
        assert(t.map_values(f).remove(k) =~= t.remove(k).map_values(f));
        let a = s.map_values(f).to_multiset();
        let b = t.map_values(f).to_multiset();
        s.map_values(f).to_multiset_ensures();
        t.map_values(f).to_multiset_ensures();
        assert(s.map_values(f)[n] == f(x));
        assert(t.map_values(f)[k] == f(x));
        assert(s.map_values(f).contains(f(x)));
        assert(t.map_values(f).contains(f(x)));
        assert(a =~= a.remove(f(x)).insert(f(x)));
        assert(b =~= b.remove(f(x)).insert(f(x)));
    } else {
        assert(t.len() == 0);
        assert(s.map_values(f) =~= t.map_values(f));
    }
}

/// Picking the items of a list at each of its indices once gives the same items.
pub proof fn lemma_pick_multiset<A>(items: Seq<A>, at: Seq<usize>)
    requires
        items.len() <= usize::MAX,
        at.to_multiset() == upto(items.len()).to_multiset(),
    ensures
        crate::group::pick_v(items, at).to_multiset() == items.to_multiset(),
{
    let all = upto(items.len());
    let f = |i: usize| items[i as int];
    assert(crate::group::pick_v(items, all) =~= items);
    assert(crate::group::pick_v(items, at) =~= at.map_values(f));
    assert(crate::group::pick_v(items, all) =~= all.map_values(f));
    lemma_map_multiset(at, all, f);
}

/// A filter keeps exactly the items that pass it.
pub proof fn lemma_filtered<A>(s: Seq<A>, pred: spec_fn(A) -> bool, x: A)
    ensures
        s.filter(pred).contains(x) <==> s.contains(x) && pred(x),
        s.filter(pred).len() <= s.len(),
    decreases s.len(),
{
    reveal(Seq::filter);
    if s.len() > 0 {
        let init = s.drop_last();
        lemma_filtered(init, pred, x);
        let before = init.filter(pred);
        let all = s.filter(pred);
        if before.contains(x) {
            let k = choose|k: int| 0 <= k < before.len() && before[k] == x;
            assert(all[k] == x);
        }
        if init.contains(x) {
            let k = choose|k: int| 0 <= k < init.len() && init[k] == x;
            assert(s[k] == x);
        }
        if x == s.last() {
            assert(s[s.len() - 1] == x);
            if pred(x) {
                assert(all[all.len() - 1] == x);
            }
        }
        if s.contains(x) && x != s.last() {
            let k = choose|k: int| 0 <= k < s.len() && s[k] == x;
            assert(init[k] == x);
        }
        if all.contains(x) && !before.contains(x) {
            let k = choose|k: int| 0 <= k < all.len() && all[k] == x;
            if k < before.len() {
                assert(before[k] == x);
            }
        }
    }
}

} // verus!
