//! Slash-separated paths: their order, parent and extension.
use vstd::prelude::*;
use vstd::string::*;

use crate::text;
use crate::text::{chars_of, rfind_char, slice_string, split};

verus! {

broadcast use vstd::seq_lib::group_seq_properties;

/// What stands for a character in a sort key: its code, moved up past the other marks.
pub open spec fn char_key_v(c: char) -> u64 {
    ((c as u32) + 8) as u64
}

/// The sort key of a text: texts are ordered by their characters.
pub open spec fn text_key_v(s: Seq<char>) -> Seq<u64> {
    s.map_values(|c: char| char_key_v(c))
}

/// Appends the sort key of `s` to `key`.
pub fn push_text_key(key: &mut Vec<u64>, s: &str)
    ensures
        final(key)@ == old(key)@ + text_key_v(s@),
{
    let cs = chars_of(s);
    let mut i: usize = 0;
    while i < cs.len()
        invariant
            i <= cs@.len(),
            cs@ == s@,
            key@ =~= old(key)@ + text_key_v(s@).take(i as int),
        decreases cs@.len() - i,
    {
        let code: u32 = cs[i] as u32;
        let u: u64 = code as u64 + 8;
        assert(u == text_key_v(s@)[i as int]);
        key.push(u);
        i = i + 1;
    }
    assert(text_key_v(s@).take(s@.len() as int) =~= text_key_v(s@));
}

/// The sort key of one segment of a path. An empty segment has none, nor has `.`, but where it
/// leads a relative path; that comes before `..`, and both before a name.
pub open spec fn segment_key_v(seg: Seq<char>, leading: bool) -> Seq<u64> {
    if seg.len() == 0 {
        Seq::empty()
    } else if seg == seq!['.'] {
        if leading {
            seq![2u64, 0]
        } else {
            Seq::empty()
        }
    } else if seg == seq!['.', '.'] {
        seq![3u64, 0]
    } else {
        (seq![4u64] + text_key_v(seg)).push(0)
    }
}

/// The sort key of the first segments of a path.
pub open spec fn segments_key_v(segs: Seq<Seq<char>>, relative: bool) -> Seq<u64>
    decreases segs.len(),
{
    if segs.len() == 0 {
        Seq::empty()
    } else {
        segments_key_v(segs.drop_last(), relative) + segment_key_v(
            segs.last(),
            relative && segs.len() == 1,
        )
    }
}

/// Does a path start at the root?
pub open spec fn rooted_v(s: Seq<char>) -> bool {
    s.len() > 0 && s[0] == '/'
}

/// The sort key of a path: paths are ordered segment by segment, one at the root first.
pub open spec fn path_key_v(s: Seq<char>) -> Seq<u64> {
    (if rooted_v(s) {
        seq![1u64, 0]
    } else {
        Seq::empty()
    }) + segments_key_v(text::split_v(s, '/'), !rooted_v(s))
}

/// Appends the sort key of a segment to `key`.
fn push_segment_key(key: &mut Vec<u64>, seg: &str, leading: bool)
    ensures
        final(key)@ == old(key)@ + segment_key_v(seg@, leading),
{
    let cs = chars_of(seg);
    let n: usize = cs.len();
    if n == 0 {
        assert(key@ =~= old(key)@ + segment_key_v(seg@, leading));
        return ;
    }
    let dot: bool = n == 1 && cs[0] == '.';
    let dots: bool = n == 2 && cs[0] == '.' && cs[1] == '.';
    assert(dot == (seg@ =~= seq!['.']));
    assert(dots == (seg@ =~= seq!['.', '.']));
    if dot {
        if leading {
            key.push(2);
            key.push(0);
        }
    } else if dots {
        key.push(3);
        key.push(0);
    } else {
        key.push(4);
        push_text_key(key, seg);
        key.push(0);
    }
    assert(key@ =~= old(key)@ + segment_key_v(seg@, leading));
}

/// Appends the sort key of a path to `key`.
pub fn push_path_key(key: &mut Vec<u64>, path: &str)
    ensures
        final(key)@ == old(key)@ + path_key_v(path@),
{
    let cs = chars_of(path);
    let rooted: bool = cs.len() > 0 && cs[0] == '/';
    if rooted {
        key.push(1);
        key.push(0);
    }
    let segs = split(path, '/');
    let ghost ss = segs.deep_view();
    let ghost head = if rooted {
        seq![1u64, 0]
    } else {
        Seq::empty()
    };
    let mut i: usize = 0;
    assert(key@ =~= old(key)@ + head + segments_key_v(ss.take(0), !rooted));
    while i < segs.len()
        invariant
            i <= segs@.len(),
            ss == segs.deep_view(),
            key@ =~= old(key)@ + head + segments_key_v(ss.take(i as int), !rooted),
        decreases segs@.len() - i,
    {
        assert(ss.take(i + 1).drop_last() =~= ss.take(i as int));
        assert(ss[i as int] == segs@[i as int]@);
        push_segment_key(key, segs[i].as_str(), !rooted && i == 0);
        i = i + 1;
    }
    assert(ss.take(ss.len() as int) =~= ss);
    assert(key@ =~= old(key)@ + path_key_v(path@));
}

/// Where the body of a path starts: behind the root, or behind a leading `.` segment.
pub open spec fn body_start_v(s: Seq<char>) -> int {
    if rooted_v(s) {
        1
    } else if s.len() > 0 && s[0] == '.' && (s.len() == 1 || s[1] == '/') {
        1
    } else {
        0
    }
}

/// Where the last segment of `s` starts, at or behind `start`.
pub open spec fn segment_start_v(s: Seq<char>, start: int) -> int
    decreases s.len(),
{
    if s.len() <= start || s.len() == 0 {
        start
    } else if s.last() == '/' {
        s.len() as int
    } else {
        segment_start_v(s.drop_last(), start)
    }
}

/// `s` without its last segment and the slash before it.
pub open spec fn cut_segment_v(s: Seq<char>, start: int) -> Seq<char> {
    let c = segment_start_v(s, start);
    if c > start {
        s.take(c - 1)
    } else {
        s.take(start)
    }
}

/// Is the last segment of `s` empty or `.`?
pub open spec fn blank_segment_v(s: Seq<char>, start: int) -> bool {
    let seg = s.skip(segment_start_v(s, start));
    seg.len() == 0 || seg == seq!['.']
}

/// A segment starts within the text.
pub proof fn lemma_segment_start(s: Seq<char>, start: int)
    requires
        0 <= start <= s.len(),
    ensures
        start <= segment_start_v(s, start) <= s.len(),
    decreases s.len(),
{
    if s.len() > start && s.last() != '/' {
        lemma_segment_start(s.drop_last(), start);
    }
}

/// A path without the empty and `.` segments at its end.
pub open spec fn trim_segments_v(s: Seq<char>, start: int) -> Seq<char>
    decreases s.len(),
    when 0 <= start
{
    if s.len() > start && blank_segment_v(s, start) {
        proof {
            lemma_segment_start(s, start);
        }
        trim_segments_v(cut_segment_v(s, start), start)
    } else {
        s
    }
}

/// The path of the directory that holds what a path names: `a` for `a/b`, the empty path for `a`.
/// The root and the empty path have none.
pub open spec fn parent_v(s: Seq<char>) -> Option<Seq<char>> {
    let start = body_start_v(s);
    let t = trim_segments_v(s, start);
    if t.len() > start {
        Some(trim_segments_v(cut_segment_v(t, start), start))
    } else if start == 1 && !rooted_v(s) {
        Some(Seq::empty())
    } else {
        None
    }
}

/// The last segment of a path, where it is a name.
pub open spec fn file_name_v(s: Seq<char>) -> Option<Seq<char>> {
    let start = body_start_v(s);
    let t = trim_segments_v(s, start);
    let seg = t.skip(segment_start_v(t, start));
    if t.len() > start && seg != seq!['.', '.'] {
        Some(seg)
    } else {
        None
    }
}

/// What follows the last dot of a path's file name, where something precedes that dot.
pub open spec fn extension_v(s: Seq<char>) -> Option<Seq<char>> {
    match file_name_v(s) {
        Some(name) => if text::rfind_char_v(name, '.') > 0 {
            Some(name.skip(text::rfind_char_v(name, '.') + 1))
        } else {
            None
        },
        None => None,
    }
}

proof fn lemma_cut_shorter(s: Seq<char>, start: int)
    requires
        0 <= start < s.len(),
    ensures
        start <= cut_segment_v(s, start).len() < s.len(),
{
    lemma_segment_start(s, start);
}

proof fn lemma_trim_shorter(s: Seq<char>, start: int)
    requires
        0 <= start <= s.len(),
    ensures
        start <= trim_segments_v(s, start).len() <= s.len(),
    decreases s.len(),
{
    if s.len() > start && blank_segment_v(s, start) {
        lemma_cut_shorter(s, start);
        lemma_trim_shorter(cut_segment_v(s, start), start);
    }
}

/// A parent path is shorter.
pub proof fn lemma_parent_shorter(s: Seq<char>)
    ensures
        parent_v(s) matches Some(p) ==> p.len() < s.len(),
{
    let start = body_start_v(s);
    let t = trim_segments_v(s, start);
    lemma_trim_shorter(s, start);
    if t.len() > start {
        lemma_cut_shorter(t, start);
        lemma_trim_shorter(cut_segment_v(t, start), start);
    }
}

/// Where the body of the path `cs` starts.
fn body_start(cs: &Vec<char>) -> (r: usize)
    ensures
        r == body_start_v(cs@),
        r <= cs@.len(),
{
    if cs.len() > 0 && cs[0] == '/' {
        1
    } else if cs.len() > 0 && cs[0] == '.' && (cs.len() == 1 || cs[1] == '/') {
        1
    } else {
        0
    }
}

/// Where the last segment of the first `len` characters starts.
fn segment_start(cs: &Vec<char>, len: usize, start: usize) -> (r: usize)
    requires
        start <= len <= cs@.len(),
    ensures
        start <= r <= len,
        r == segment_start_v(cs@.take(len as int), start as int),
{
    let mut i: usize = len;
    while i > start && cs[i - 1] != '/'
        invariant
            start <= i <= len <= cs@.len(),
            segment_start_v(cs@.take(len as int), start as int) == segment_start_v(
                cs@.take(i as int),
                start as int,
            ),
        decreases i,
    {
        assert(cs@.take(i as int).drop_last() =~= cs@.take(i - 1));
        i = i - 1;
    }
    i
}

/// The length that the first `len` characters have without the empty and `.` segments at their end.
fn trim_segments(cs: &Vec<char>, len: usize, start: usize) -> (r: usize)
    requires
        start <= len <= cs@.len(),
    ensures
        start <= r <= len,
        cs@.take(r as int) == trim_segments_v(cs@.take(len as int), start as int),
{
    let mut n: usize = len;
    while n > start
        invariant
            start <= n <= len <= cs@.len(),
            trim_segments_v(cs@.take(len as int), start as int) == trim_segments_v(
                cs@.take(n as int),
                start as int,
            ),
        decreases n,
    {
        let ghost t = cs@.take(n as int);
        let c: usize = segment_start(cs, n, start);
        let ghost seg = t.skip(c as int);
        let blank: bool = c == n || (c + 1 == n && cs[c] == '.');
        assert(blank == (seg.len() == 0 || seg =~= seq!['.']));
        if !blank {
            return n;
        }
        let m: usize = if c > start {
            c - 1
        } else {
            start
        };
        assert(cut_segment_v(t, start as int) =~= cs@.take(m as int));
        n = m;
    }
    n
}

/// The path of the directory that holds what `path` names.
pub fn parent(path: &str) -> (r: Option<String>)
    ensures
        r.deep_view() == parent_v(path@),
{
    let cs = chars_of(path);
    let start: usize = body_start(&cs);
    assert(cs@.take(cs@.len() as int) =~= cs@);
    let n: usize = trim_segments(&cs, cs.len(), start);
    if n > start {
        let c: usize = segment_start(&cs, n, start);
        let m: usize = if c > start {
            c - 1
        } else {
            start
        };
        assert(cut_segment_v(cs@.take(n as int), start as int) =~= cs@.take(m as int));
        let k: usize = trim_segments(&cs, m, start);
        let out = slice_string(&cs, 0, k);
        assert(out@ =~= cs@.take(k as int));
        Some(out)
    } else if start == 1 && cs[0] != '/' {
        Some(String::new())
    } else {
        None
    }
}

/// What follows the last dot of the file name of `path`, where something precedes that dot.
pub fn extension(path: &str) -> (r: Option<String>)
    ensures
        r.deep_view() == extension_v(path@),
{
    let cs = chars_of(path);
    let start: usize = body_start(&cs);
    assert(cs@.take(cs@.len() as int) =~= cs@);
    let n: usize = trim_segments(&cs, cs.len(), start);
    if n <= start {
        return None;
    }
    let ghost t = cs@.take(n as int);
    let c: usize = segment_start(&cs, n, start);
    let ghost name = t.skip(c as int);
    let dots: bool = n - c == 2 && cs[c] == '.' && cs[c + 1] == '.';
    assert(dots == (name =~= seq!['.', '.']));
    if dots {
        return None;
    }
    match rfind_char(&cs, c, n, '.') {
        Some(i) => {
            assert(cs@.subrange(c as int, n as int) =~= name);
            if i > c {
                let out = slice_string(&cs, i + 1, n);
                assert(out@ =~= name.skip(i - c + 1));
                Some(out)
            } else {
                None
            }
        },
        None => {
            assert(cs@.subrange(c as int, n as int) =~= name);
            None
        },
    }
}

/// `dir` and `name` joined by a slash.
pub open spec fn join_path_v(dir: Seq<char>, name: Seq<char>) -> Seq<char> {
    if dir.len() == 0 || dir.last() == '/' {
        dir + name
    } else {
        dir.push('/') + name
    }
}

/// `dir` and the relative `name` joined by a slash, where `dir` is not empty and ends in none.
pub fn join_path(dir: &str, name: &str) -> (r: String)
    ensures
        r@ == join_path_v(dir@, name@),
{
    let cs = chars_of(dir);
    let mut out = dir.to_owned();
    if cs.len() > 0 && cs[cs.len() - 1] != '/' {
        out.push('/');
    }
    out.append(name);
    out
}

// ---- Laws of paths ----

/// A plain name of a file or directory.
pub open spec fn plain_name(name: Seq<char>) -> bool {
    &&& name.len() > 0
    &&& !name.contains('/')
    &&& name != seq!['.']
    &&& name != seq!['.', '.']
}

/// The last segment starts behind the last slash.
proof fn lemma_last_segment(a: Seq<char>, name: Seq<char>, start: int)
    requires
        0 <= start <= a.len(),
        a.len() == start || a.last() == '/',
        name.len() > 0,
        !name.contains('/'),
    ensures
        segment_start_v(a + name, start) == a.len(),
    decreases name.len(),
{
    let s = a + name;
    let init = name.drop_last();
    assert(s.drop_last() =~= a + init);
    assert(s.last() == name.last());
    assert(name.contains(name.last()));
    assert(!init.contains('/')) by {
        if init.contains('/') {
            let k = choose|k: int| 0 <= k < init.len() && init[k] == '/';
            assert(name[k] == '/');
        }
    }
    if init.len() > 0 {
        lemma_last_segment(a, init, start);
    } else {
        assert(a + init =~= a);
        reveal_with_fuel(segment_start_v, 2);
    }
}

/// The name of a file is what stands behind the last slash of its path, or all of it where there
/// is none.
pub proof fn law_file_names(dir: Seq<char>, name: Seq<char>)
    requires
        plain_name(name),
    ensures
        file_name_v(dir.push('/') + name) == Some(name),
        file_name_v(name) == Some(name),
        parent_v(name) == Some(Seq::<char>::empty()),
        file_name_v(join_path_v(dir, name)) == Some(name),
{
    lemma_named(dir.push('/'), name);
    lemma_named(Seq::empty(), name);
    assert(Seq::<char>::empty() + name =~= name);
    let start = body_start_v(name);
    assert(start == 0) by {
        if name[0] == '/' {
            assert(name.contains('/'));
        }
        if name.len() > 1 && name[1] == '/' {
            assert(name.contains('/'));
        }
        if name.len() == 1 && name[0] == '.' {
            assert(name =~= seq!['.']);
        }
    }
    lemma_last_segment(Seq::empty(), name, 0);
    assert(cut_segment_v(name, 0) =~= Seq::empty());
    if dir.len() == 0 {
        assert(dir + name =~= name);
    } else if dir.last() == '/' {
        lemma_named(dir, name);
    }
}

/// A path that ends in a plain name.
proof fn lemma_named(a: Seq<char>, name: Seq<char>)
    requires
        plain_name(name),
        a.len() == 0 || a.last() == '/',
    ensures
        ({
            let s = a + name;
            &&& body_start_v(s) <= a.len()
            &&& trim_segments_v(s, body_start_v(s)) == s
            &&& file_name_v(s) == Some(name)
            &&& a.len() > body_start_v(s) ==> cut_segment_v(s, body_start_v(s)) == a.drop_last()
        }),
{
    let s = a + name;
    let start = body_start_v(s);
    if a.len() == 0 {
        assert(s =~= name);
        if name[0] == '/' {
            assert(name.contains('/'));
        }
        if name.len() > 1 && name[1] == '/' {
            assert(name.contains('/'));
        }
        if name.len() == 1 && name[0] == '.' {
            assert(name =~= seq!['.']);
        }
    }
    assert(start <= a.len());
    lemma_last_segment(a, name, start);
    assert(s.skip(a.len() as int) =~= name);
    if a.len() > start {
        assert(s.take(a.len() - 1) =~= a.drop_last());
    }
}

/// The parent of a file is the directory in front of its name.
pub proof fn law_parents(dir: Seq<char>, last: Seq<char>, name: Seq<char>)
    requires
        plain_name(last),
        plain_name(name),
        dir.len() == 0 || dir.last() == '/',
    ensures
        parent_v((dir + last).push('/') + name) == Some(dir + last),
{
    let d = dir + last;
    let s = d.push('/') + name;
    lemma_named(d.push('/'), name);
    lemma_named(dir, last);
    let start = body_start_v(s);
    assert(start == body_start_v(d)) by {
        assert(s[0] == d[0]);
        if d.len() > 1 {
            assert(s[1] == d[1]);
        } else {
            assert(dir.len() == 0);
            assert(d =~= last);
            if last[0] == '.' {
                assert(last =~= seq!['.']);
            }
        }
    }
    assert(d.push('/').drop_last() =~= d);
    assert(cut_segment_v(s, start) == d);
}

/// A name with a dot in it is plain.
proof fn lemma_dotted_name(stem: Seq<char>, ext: Seq<char>)
    requires
        !stem.contains('/'),
        !ext.contains('/'),
        stem.len() + ext.len() > 0,
        stem.push('.') + ext != seq!['.', '.'],
    ensures
        plain_name(stem.push('.') + ext),
{
    let name = stem.push('.') + ext;
    if name.contains('/') {
        let k = choose|k: int| 0 <= k < name.len() && name[k] == '/';
        if k < stem.len() {
            assert(stem[k] == '/');
        } else if k > stem.len() {
            assert(ext[k - stem.len() - 1] == '/');
        }
    }
    assert(name.len() >= 2);
    assert(name != seq!['.']);
}

/// The extension of a file is what stands behind the last dot of its name.
pub proof fn law_extensions(dir: Seq<char>, stem: Seq<char>, ext: Seq<char>)
    requires
        dir.len() == 0 || dir.last() == '/',
        stem.len() > 0,
        !stem.contains('/'),
        !ext.contains('/'),
        !ext.contains('.'),
        stem.push('.') + ext != seq!['.', '.'],
    ensures
        extension_v(dir + (stem.push('.') + ext)) == Some(ext),
{
    let name = stem.push('.') + ext;
    lemma_dotted_name(stem, ext);
    lemma_named(dir, name);
    lemma_last_dot(stem, ext);
    assert(name.skip(stem.len() as int + 1) =~= ext);
}

/// A name without a dot, or with none but at its start, has no extension.
pub proof fn law_no_extension(dir: Seq<char>, name: Seq<char>)
    requires
        dir.len() == 0 || dir.last() == '/',
        name.len() > 0,
        !name.contains('/'),
        !name.contains('.'),
    ensures
        extension_v(dir + name) is None,
        extension_v(dir + (Seq::<char>::empty().push('.') + name)) is None,
{
    assert(name.contains(name[0]));
    assert(plain_name(name)) by {
        if name == seq!['.'] || name == seq!['.', '.'] {
            assert(name[0] == '.');
        }
    }
    lemma_named(dir, name);
    lemma_no_dot(name);
    let hidden = Seq::<char>::empty().push('.') + name;
    assert(hidden != seq!['.', '.']) by {
        assert(hidden[1] == name[0]);
    }
    lemma_dotted_name(Seq::empty(), name);
    lemma_named(dir, hidden);
    lemma_last_dot(Seq::empty(), name);
}

proof fn lemma_no_dot(s: Seq<char>)
    requires
        !s.contains('.'),
    ensures
        text::rfind_char_v(s, '.') == -1,
    decreases s.len(),
{
    if s.len() > 0 {
        assert(s.contains(s.last()));
        let init = s.drop_last();
        assert(!init.contains('.')) by {
            if init.contains('.') {
                let k = choose|k: int| 0 <= k < init.len() && init[k] == '.';
                assert(s[k] == '.');
            }
        }
        lemma_no_dot(init);
    }
}

proof fn lemma_last_dot(stem: Seq<char>, ext: Seq<char>)
    requires
        !ext.contains('.'),
    ensures
        text::rfind_char_v(stem.push('.') + ext, '.') == stem.len(),
    decreases ext.len(),
{
    let s = stem.push('.') + ext;
    if ext.len() > 0 {
        let init = ext.drop_last();
        assert(s.drop_last() =~= stem.push('.') + init);
        assert(ext.contains(ext.last()));
        assert(s.last() == ext.last());
        assert(!init.contains('.')) by {
            if init.contains('.') {
                let k = choose|k: int| 0 <= k < init.len() && init[k] == '.';
                assert(ext[k] == '.');
            }
        }
        lemma_last_dot(stem, init);
    } else {
        assert(s =~= stem.push('.'));
        assert(s.last() == '.');
    }
}

/// The key of some segments starts with that of the first.
proof fn lemma_first_segment(segs: Seq<Seq<char>>, relative: bool)
    requires
        segs.len() > 0,
    ensures
        exists|rest: Seq<u64>| #[trigger]
            segments_key_v(segs, relative) == segment_key_v(segs[0], relative) + rest,
    decreases segs.len(),
{
    if segs.len() == 1 {
        assert(segs.drop_last() =~= Seq::empty());
        reveal_with_fuel(segments_key_v, 2);
        assert(segments_key_v(segs, relative) =~= segment_key_v(segs[0], relative) + Seq::<
            u64,
        >::empty());
    } else {
        let init = segs.drop_last();
        lemma_first_segment(init, relative);
        let rest = choose|rest: Seq<u64>| #[trigger]
            segments_key_v(init, relative) == segment_key_v(init[0], relative) + rest;
        let last = segment_key_v(segs.last(), false);
        assert(segments_key_v(segs, relative) =~= segment_key_v(segs[0], relative) + (rest + last));
    }
}

/// Of two names, the one that comes first has the smaller key, whatever follows.
proof fn lemma_names_decide(p: Seq<char>, q: Seq<char>, x: Seq<u64>, y: Seq<u64>)
    requires
        crate::outline::text_before(p, q),
    ensures
        crate::order::key_le(text_key_v(p).push(0) + x, text_key_v(q).push(0) + y),
        !crate::order::key_le(text_key_v(q).push(0) + y, text_key_v(p).push(0) + x),
    decreases p.len(),
{
    let a = text_key_v(p).push(0) + x;
    let b = text_key_v(q).push(0) + y;
    assert(b[0] == char_key_v(q[0]));
    if p.len() == 0 {
        assert(a[0] == 0);
        lemma_char_keys_above(q[0], q[0]);
    } else {
        assert(a[0] == char_key_v(p[0]));
        lemma_char_keys_above(p[0], q[0]);
        if p[0] == q[0] {
            lemma_names_decide(p.drop_first(), q.drop_first(), x, y);
            assert(a.drop_first() =~= text_key_v(p.drop_first()).push(0) + x);
            assert(b.drop_first() =~= text_key_v(q.drop_first()).push(0) + y);
        }
    }
}

proof fn lemma_char_keys_above(a: char, b: char)
    ensures
        char_key_v(a) >= 8,
        char_key_v(a) == char_key_v(b) <==> a == b,
        char_key_v(a) < char_key_v(b) <==> (a as u32) < (b as u32),
{
}

/// Paths are ordered by their first segments, whatever stands behind those: a file in `a` comes
/// before one in `a-b`, although a dash comes before a slash.
pub proof fn law_paths_by_segments(p: Seq<char>, q: Seq<char>, x: Seq<char>, y: Seq<char>)
    requires
        plain_name(p),
        plain_name(q),
        crate::outline::text_before(p, q),
    ensures
        crate::order::key_le(path_key_v(p.push('/') + x), path_key_v(q.push('/') + y)),
        !crate::order::key_le(path_key_v(q.push('/') + y), path_key_v(p.push('/') + x)),
        crate::order::key_le(path_key_v(p.push('/') + x), path_key_v(q)),
        crate::order::key_le(path_key_v(p), path_key_v(q.push('/') + y)),
        crate::order::key_le(path_key_v(p), path_key_v(q)),
{
    lemma_key_starts(p, p.push('/') + x);
    lemma_key_starts(q, q.push('/') + y);
    lemma_key_starts(p, p);
    lemma_key_starts(q, q);
    lemma_starts_decide(p, q, p.push('/') + x, q.push('/') + y);
    lemma_starts_decide(p, q, p.push('/') + x, q);
    lemma_starts_decide(p, q, p, q.push('/') + y);
    lemma_starts_decide(p, q, p, q);
}

/// A path whose first segment is a plain name.
spec fn starts_with_name(name: Seq<char>, s: Seq<char>) -> bool {
    exists|rest: Seq<u64>| #[trigger]
        path_key_v(s) == (seq![4u64] + text_key_v(name)).push(0) + rest
}

proof fn lemma_starts_decide(p: Seq<char>, q: Seq<char>, s: Seq<char>, t: Seq<char>)
    requires
        crate::outline::text_before(p, q),
        starts_with_name(p, s),
        starts_with_name(q, t),
    ensures
        crate::order::key_le(path_key_v(s), path_key_v(t)),
        !crate::order::key_le(path_key_v(t), path_key_v(s)),
{
    let x = choose|rest: Seq<u64>| #[trigger]
        path_key_v(s) == (seq![4u64] + text_key_v(p)).push(0) + rest;
    let y = choose|rest: Seq<u64>| #[trigger]
        path_key_v(t) == (seq![4u64] + text_key_v(q)).push(0) + rest;
    lemma_names_decide(p, q, x, y);
    let a = path_key_v(s);
    let b = path_key_v(t);
    assert(a[0] == 4 && b[0] == 4);
    assert(a.drop_first() =~= text_key_v(p).push(0) + x);
    assert(b.drop_first() =~= text_key_v(q).push(0) + y);
}

proof fn lemma_key_starts(name: Seq<char>, s: Seq<char>)
    requires
        plain_name(name),
        s == name || exists|x: Seq<char>| s == #[trigger] (name.push('/') + x),
    ensures
        starts_with_name(name, s),
{
    assert(s[0] == name[0]);
    assert(name.contains(name[0]));
    assert(!rooted_v(s));
    text::lemma_find_char(s, '/');
    let k = text::find_char_v(s, '/');
    let segs = text::split_v(s, '/');
    if s == name {
        if k < s.len() {
            assert(name.contains('/'));
        }
        assert(segs[0] == name);
    } else {
        let x = choose|x: Seq<char>| s == #[trigger] (name.push('/') + x);
        assert(s[name.len() as int] == '/');
        if k < name.len() {
            assert(name[k] == '/');
        }
        assert(s.take(k) =~= name);
        assert(segs[0] == name);
    }
    lemma_first_segment(segs, true);
    let rest = choose|rest: Seq<u64>| #[trigger]
        segments_key_v(segs, true) == segment_key_v(segs[0], true) + rest;
    assert(path_key_v(s) =~= (seq![4u64] + text_key_v(name)).push(0) + rest);
}

} // verus!
