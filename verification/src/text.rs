//! Text helpers shared by every module: characters, whitespace, lines, words,
//! searching, and number formatting.

use vstd::prelude::*;
use vstd::string::*;
use vstd::utf8::*;

verus! {

/// `String::push` appends one character.
pub assume_specification[ String::push ](s: &mut String, c: char)
    ensures
        final(s)@ == old(s)@.push(c),
;

/// `String::pop` removes the last character, if there is one.
pub assume_specification[ String::pop ](s: &mut String) -> (r: Option<char>)
    ensures
        old(s)@.len() == 0 ==> r is None && final(s)@ == old(s)@,
        old(s)@.len() > 0 ==> r == Some(old(s)@.last()) && final(s)@ == old(s)@.drop_last(),
;

/// The lowercase form of a text under Unicode's default case mapping.
pub uninterp spec fn lowercase(s: Seq<char>) -> Seq<char>;

/// `str::to_lowercase`: the result depends on the text alone.
#[verifier::external_body]
pub(crate) fn to_lowercase(s: &str) -> (r: String)
    ensures
        r@ == lowercase(s@),
{
    s.to_lowercase()
}

/// The characters of a string, in order.
pub fn chars_of(s: &str) -> (r: Vec<char>)
    ensures
        r@ == s@,
{
    let mut out: Vec<char> = Vec::new();
    for c in it: s.chars()
        invariant
            it.seq() == s@,
            out@ == it.seq().take(it.index()),
    {
        out.push(c);
    }
    out
}

/// The characters of `cs` from `a` up to `b`, as a string.
pub fn slice_string(cs: &[char], a: usize, b: usize) -> (r: String)
    requires
        a <= b <= cs@.len(),
    ensures
        r@ == cs@.subrange(a as int, b as int),
{
    let mut out = String::new();
    let mut i: usize = a;
    assert(cs@.subrange(a as int, a as int) =~= Seq::<char>::empty());
    while i < b
        invariant
            a <= i <= b <= cs@.len(),
            out@ == cs@.subrange(a as int, i as int),
        decreases b - i,
    {
        out.push(cs[i]);
        i = i + 1;
        assert(cs@.subrange(a as int, i as int) =~= cs@.subrange(a as int, i - 1).push(cs@[i - 1]));
    }
    out
}

/// Are the two texts the same?
pub fn same(a: &str, b: &str) -> (r: bool)
    ensures
        r == (a@ == b@),
{
    let x = a.as_bytes();
    let y = b.as_bytes();
    if x.len() != y.len() {
        return false;
    }
    let mut i: usize = 0;
    while i < x.len()
        invariant
            i <= x@.len() == y@.len(),
            x@ == encode_utf8(a@),
            y@ == encode_utf8(b@),
            forall|j: int| 0 <= j < i ==> x@[j] == y@[j],
        decreases x@.len() - i,
    {
        if x[i] != y[i] {
            return false;
        }
        i = i + 1;
    }
    assert(x@ =~= y@);
    proof {
        encode_utf8_decode_utf8(a@);
        encode_utf8_decode_utf8(b@);
    }
    true
}

/// The length of a text in bytes.
pub open spec fn byte_len_v(s: Seq<char>) -> nat {
    encode_utf8(s).len()
}

/// The length of `s` in bytes.
pub fn byte_len(s: &str) -> (r: usize)
    ensures
        r == byte_len_v(s@),
{
    s.as_bytes().len()
}

/// How many bytes a character takes.
pub open spec fn char_len_v(c: char) -> nat {
    encode_scalar(c as u32).len()
}

/// How many bytes `c` takes.
pub fn char_len(c: char) -> (r: usize)
    ensures
        r == char_len_v(c),
        1 <= r <= 4,
{
    let u: u32 = c as u32;
    if u <= 0x7f {
        1
    } else if u <= 0x7ff {
        2
    } else if u <= 0xffff {
        3
    } else {
        4
    }
}

/// The bytes of two texts after each other are those of each.
pub proof fn lemma_encode_concat(a: Seq<char>, b: Seq<char>)
    ensures
        encode_utf8(a + b) == encode_utf8(a) + encode_utf8(b),
    decreases a.len(),
{
    if a.len() == 0 {
        assert(a + b =~= b);
        assert(encode_utf8(a) + encode_utf8(b) =~= encode_utf8(b));
    } else {
        lemma_encode_concat(a.drop_first(), b);
        assert((a + b).drop_first() =~= a.drop_first() + b);
        assert(encode_utf8(a + b) =~= encode_utf8(a) + encode_utf8(b));
    }
}

/// A further character adds its bytes.
pub proof fn lemma_byte_len_push(s: Seq<char>, c: char)
    ensures
        byte_len_v(s.push(c)) == byte_len_v(s) + char_len_v(c),
{
    lemma_encode_concat(s, seq![c]);
    assert(s.push(c) =~= s + seq![c]);
    assert(seq![c].drop_first() =~= Seq::empty());
    assert(encode_utf8(Seq::empty()) =~= Seq::<u8>::empty());
    assert(encode_utf8(seq![c]) =~= encode_scalar(c as u32));
}

/// The longest start of a text that takes at most `max` bytes.
pub open spec fn head_bytes_v(s: Seq<char>, max: int) -> Seq<char>
    decreases s.len(),
{
    if s.len() == 0 || byte_len_v(s) <= max {
        s
    } else {
        head_bytes_v(s.drop_last(), max)
    }
}

proof fn lemma_head_bytes(s: Seq<char>, end: int, max: int)
    requires
        0 <= end <= s.len(),
        byte_len_v(s.take(end)) <= max,
        end < s.len() ==> byte_len_v(s.take(end + 1)) > max,
    ensures
        head_bytes_v(s, max) == s.take(end),
    decreases s.len(),
{
    if end == s.len() {
        assert(s.take(end) =~= s);
    } else {
        let t = s.drop_last();
        assert(s.take(end + 1) + s.skip(end + 1) =~= s);
        lemma_encode_concat(s.take(end + 1), s.skip(end + 1));
        assert(t.take(end) =~= s.take(end));
        if end + 1 < s.len() {
            assert(t.take(end + 1) =~= s.take(end + 1));
        }
        lemma_head_bytes(t, end, max);
    }
}

/// The longest start that fits is a start and fits; so does every start of it.
pub proof fn lemma_head_fits(s: Seq<char>, max: int)
    requires
        max >= 0,
    ensures
        head_bytes_v(s, max).is_prefix_of(s),
        byte_len_v(head_bytes_v(s, max)) <= max,
    decreases s.len(),
{
    if s.len() == 0 {
        assert(encode_utf8(s) =~= Seq::<u8>::empty());
    } else if byte_len_v(s) > max {
        lemma_head_fits(s.drop_last(), max);
    }
}

/// A start of a text takes no more bytes than the text.
pub proof fn lemma_start_fits(s: Seq<char>, k: int)
    requires
        0 <= k <= s.len(),
    ensures
        byte_len_v(s.take(k)) <= byte_len_v(s),
{
    lemma_encode_concat(s.take(k), s.skip(k));
    assert(s.take(k) + s.skip(k) =~= s);
}

/// How many characters the longest start of `cs` has that takes at most `max` bytes.
pub fn head_bytes(cs: &[char], max: usize) -> (r: usize)
    ensures
        r <= cs@.len(),
        cs@.take(r as int) == head_bytes_v(cs@, max as int),
{
    let mut used: usize = 0;
    let mut i: usize = 0;
    assert(cs@.take(0) =~= Seq::empty());
    while i < cs.len()
        invariant
            i <= cs@.len(),
            used == byte_len_v(cs@.take(i as int)),
            used <= max,
        decreases cs@.len() - i,
    {
        let k: usize = char_len(cs[i]);
        assert(cs@.take(i + 1) =~= cs@.take(i as int).push(cs@[i as int]));
        proof {
            lemma_byte_len_push(cs@.take(i as int), cs@[i as int]);
        }
        if k > max - used {
            proof {
                lemma_head_bytes(cs@, i as int, max as int);
            }
            return i;
        }
        used = used + k;
        i = i + 1;
    }
    proof {
        lemma_head_bytes(cs@, i as int, max as int);
    }
    i
}

/// What bytes read as, with the replacement character for what is no UTF-8.
pub uninterp spec fn lossy_v(bytes: Seq<u8>) -> Seq<char>;

/// `String::from_utf8_lossy`: the text that bytes encode, with the replacement character for what
/// is no UTF-8. Claimed of it: it depends on the bytes alone, and valid UTF-8 is decoded.
#[verifier::external_body]
pub(crate) fn from_utf8_lossy(bytes: &[u8]) -> (r: String)
    ensures
        r@ == lossy_v(bytes@),
        valid_utf8(bytes@) ==> r@ == decode_utf8(bytes@),
{
    String::from_utf8_lossy(bytes).into_owned()
}

// ---- Whitespace ----

/// Unicode's `White_Space` property.
pub open spec fn white(c: char) -> bool {
    let u = c as u32;
    ||| 9 <= u <= 13
    ||| u == 0x20
    ||| u == 0x85
    ||| u == 0xA0
    ||| u == 0x1680
    ||| 0x2000 <= u <= 0x200A
    ||| u == 0x2028
    ||| u == 0x2029
    ||| u == 0x202F
    ||| u == 0x205F
    ||| u == 0x3000
}

/// Does `c` have the `White_Space` property?
pub fn is_white(c: char) -> (r: bool)
    ensures
        r == white(c),
{
    let u: u32 = c as u32;
    (9 <= u && u <= 13) || u == 0x20 || u == 0x85 || u == 0xA0 || u == 0x1680 || (0x2000 <= u && u
        <= 0x200A) || u == 0x2028 || u == 0x2029 || u == 0x202F || u == 0x205F || u == 0x3000
}

/// A text without its leading whitespace.
pub open spec fn trim_start_v(s: Seq<char>) -> Seq<char>
    decreases s.len(),
{
    if s.len() > 0 && white(s[0]) {
        trim_start_v(s.drop_first())
    } else {
        s
    }
}

/// A text without its trailing whitespace.
pub open spec fn trim_end_v(s: Seq<char>) -> Seq<char>
    decreases s.len(),
{
    if s.len() > 0 && white(s.last()) {
        trim_end_v(s.drop_last())
    } else {
        s
    }
}

/// A text without whitespace at either end.
pub open spec fn trim_v(s: Seq<char>) -> Seq<char> {
    trim_end_v(trim_start_v(s))
}

/// How many characters lead `cs` from `from` on before its first non-white one.
pub fn white_run(cs: &[char], from: usize) -> (k: usize)
    requires
        from <= cs@.len(),
    ensures
        from <= k <= cs@.len(),
        trim_start_v(cs@.skip(from as int)) == cs@.skip(k as int),
        k < cs@.len() ==> !white(cs@[k as int]),
        forall|j: int| from <= j < k ==> white(cs@[j]),
{
    let mut i: usize = from;
    while i < cs.len() && is_white(cs[i])
        invariant
            from <= i <= cs@.len(),
            trim_start_v(cs@.skip(from as int)) == trim_start_v(cs@.skip(i as int)),
            forall|j: int| from <= j < i ==> white(cs@[j]),
        decreases cs@.len() - i,
    {
        assert(cs@.skip(i as int).drop_first() =~= cs@.skip(i + 1));
        i = i + 1;
    }
    i
}

/// The bounds of `cs` without whitespace at either end.
pub fn trim_bounds(cs: &[char]) -> (r: (usize, usize))
    ensures
        r.0 <= r.1 <= cs@.len(),
        cs@.subrange(r.0 as int, r.1 as int) == trim_v(cs@),
{
    let a: usize = white_run(cs, 0);
    assert(cs@.skip(0) =~= cs@);
    let mut b: usize = cs.len();
    assert(cs@.subrange(a as int, b as int) =~= cs@.skip(a as int));
    while b > a && is_white(cs[b - 1])
        invariant
            a <= b <= cs@.len(),
            trim_end_v(cs@.skip(a as int)) == trim_end_v(cs@.subrange(a as int, b as int)),
        decreases b,
    {
        assert(cs@.subrange(a as int, b as int).drop_last() =~= cs@.subrange(a as int, b - 1));
        b = b - 1;
    }
    (a, b)
}

/// `s` without whitespace at either end.
pub fn trim(s: &str) -> (r: String)
    ensures
        r@ == trim_v(s@),
{
    let cs = chars_of(s);
    let (a, b) = trim_bounds(&cs);
    slice_string(&cs, a, b)
}

/// `s` without leading whitespace.
pub fn trim_start(s: &str) -> (r: String)
    ensures
        r@ == trim_start_v(s@),
{
    let cs = chars_of(s);
    let a: usize = white_run(&cs, 0);
    assert(cs@.skip(0) =~= cs@);
    assert(cs@.subrange(a as int, cs@.len() as int) =~= cs@.skip(a as int));
    slice_string(&cs, a, cs.len())
}

// ---- Searching ----

/// Where `c` first occurs in `s`, or the length of `s` where it does not.
pub open spec fn find_char_v(s: Seq<char>, c: char) -> int
    decreases s.len(),
{
    if s.len() == 0 || s[0] == c {
        0
    } else {
        1 + find_char_v(s.drop_first(), c)
    }
}

/// `find_char_v` is the least index that holds `c`.
pub proof fn lemma_find_char(s: Seq<char>, c: char)
    ensures
        0 <= find_char_v(s, c) <= s.len(),
        find_char_v(s, c) < s.len() ==> s[find_char_v(s, c)] == c,
        forall|j: int| 0 <= j < find_char_v(s, c) ==> s[j] != c,
    decreases s.len(),
{
    if s.len() > 0 && s[0] != c {
        lemma_find_char(s.drop_first(), c);
        let k = find_char_v(s.drop_first(), c);
        assert forall|j: int| 0 <= j < k + 1 implies s[j] != c by {
            if j > 0 {
                assert(s.drop_first()[j - 1] == s[j]);
            }
        }
    }
}

/// The index at or after `from` of the first `c`, or the length of `cs`.
pub fn find_char(cs: &[char], from: usize, c: char) -> (r: usize)
    requires
        from <= cs@.len(),
    ensures
        from <= r <= cs@.len(),
        r - from == find_char_v(cs@.skip(from as int), c),
        r < cs@.len() ==> cs@[r as int] == c,
        forall|j: int| from <= j < r ==> cs@[j] != c,
{
    let mut i: usize = from;
    while i < cs.len() && cs[i] != c
        invariant
            from <= i <= cs@.len(),
            find_char_v(cs@.skip(from as int), c) == i - from + find_char_v(cs@.skip(i as int), c),
            forall|j: int| from <= j < i ==> cs@[j] != c,
        decreases cs@.len() - i,
    {
        assert(cs@.skip(i as int).drop_first() =~= cs@.skip(i + 1));
        i = i + 1;
    }
    i
}

/// Where `c` last occurs in a text, or -1.
pub open spec fn rfind_char_v(s: Seq<char>, c: char) -> int
    decreases s.len(),
{
    if s.len() == 0 {
        -1
    } else if s.last() == c {
        s.len() - 1
    } else {
        rfind_char_v(s.drop_last(), c)
    }
}

/// The index of the last `c` of `cs` from `from` to `to`.
pub fn rfind_char(cs: &[char], from: usize, to: usize, c: char) -> (r: Option<usize>)
    requires
        from <= to <= cs@.len(),
    ensures
        match r {
            Some(i) => from <= i < to && rfind_char_v(cs@.subrange(from as int, to as int), c) == i
                - from,
            None => rfind_char_v(cs@.subrange(from as int, to as int), c) == -1,
        },
{
    let ghost part = cs@.subrange(from as int, to as int);
    let mut i: usize = to;
    assert(part.take(to - from) =~= part);
    while i > from
        invariant
            from <= i <= to <= cs@.len(),
            part == cs@.subrange(from as int, to as int),
            rfind_char_v(part, c) == rfind_char_v(part.take(i - from), c),
        decreases i,
    {
        assert(part.take(i - from).last() == cs@[i - 1]);
        if cs[i - 1] == c {
            return Some(i - 1);
        }
        assert(part.take(i - from).drop_last() =~= part.take(i - from - 1));
        i = i - 1;
    }
    None
}

/// Does `needle` stand at index `i` of `hay`?
pub fn matches_at(hay: &[char], i: usize, needle: &[char]) -> (r: bool)
    requires
        i <= hay@.len(),
    ensures
        r == needle@.is_prefix_of(hay@.skip(i as int)),
{
    let n: usize = hay.len();
    if n - i < needle.len() {
        return false;
    }
    let mut j: usize = 0;
    while j < needle.len()
        invariant
            n == hay@.len(),
            i + needle@.len() <= n,
            j <= needle@.len(),
            forall|k: int| 0 <= k < j ==> needle@[k] == hay@[i + k],
        decreases needle@.len() - j,
    {
        if hay[i + j] != needle[j] {
            assert(hay@.skip(i as int).take(needle@.len() as int)[j as int] != needle@[j as int]);
            return false;
        }
        j = j + 1;
    }
    assert(needle@ =~= hay@.skip(i as int).take(needle@.len() as int));
    true
}

/// Where `needle` first occurs in `hay`.
pub open spec fn find_v(hay: Seq<char>, needle: Seq<char>) -> Option<int>
    decreases hay.len(),
{
    if needle.is_prefix_of(hay) {
        Some(0)
    } else if hay.len() == 0 {
        None
    } else {
        match find_v(hay.drop_first(), needle) {
            Some(i) => Some(i + 1),
            None => None,
        }
    }
}

/// Does `needle` occur in `hay`?
pub open spec fn contains_v(hay: Seq<char>, needle: Seq<char>) -> bool {
    find_v(hay, needle) is Some
}

/// `find_v` is the least index at which `needle` stands.
pub proof fn lemma_find(hay: Seq<char>, needle: Seq<char>)
    ensures
        find_v(hay, needle) matches Some(i) ==> 0 <= i <= hay.len() - needle.len()
            && needle.is_prefix_of(hay.skip(i)),
        forall|j: int|
            0 <= j <= hay.len() && (find_v(hay, needle) matches Some(i) ==> j < i)
                ==> !needle.is_prefix_of(#[trigger] hay.skip(j)),
    decreases hay.len(),
{
    assert(hay.skip(0) =~= hay);
    if !needle.is_prefix_of(hay) && hay.len() > 0 {
        lemma_find(hay.drop_first(), needle);
        assert forall|j: int| 0 < j <= hay.len() implies #[trigger] hay.skip(j)
            == hay.drop_first().skip(j - 1) by {
            assert(hay.skip(j) =~= hay.drop_first().skip(j - 1));
        }
        if let Some(i) = find_v(hay.drop_first(), needle) {
            assert(hay.skip(i + 1) == hay.drop_first().skip(i));
        }
    }
}

/// Where `needle` first occurs in `hay`.
pub fn find(hay: &[char], needle: &[char]) -> (r: Option<usize>)
    ensures
        r is Some == find_v(hay@, needle@) is Some,
        r matches Some(i) ==> find_v(hay@, needle@) == Some(i as int) && i + needle@.len()
            <= hay@.len(),
{
    let mut i: usize = 0;
    assert(hay@.skip(0) =~= hay@);
    loop
        invariant
            i <= hay@.len(),
            find_v(hay@, needle@) == (match find_v(hay@.skip(i as int), needle@) {
                Some(j) => Some(i + j),
                None => None,
            }),
        decreases hay@.len() - i,
    {
        if matches_at(hay, i, needle) {
            return Some(i);
        }
        if i == hay.len() {
            return None;
        }
        assert(hay@.skip(i as int).drop_first() =~= hay@.skip(i + 1));
        i = i + 1;
    }
}

/// Does `needle` occur in `hay`?
pub fn contains(hay: &str, needle: &str) -> (r: bool)
    ensures
        r == contains_v(hay@, needle@),
{
    let h = chars_of(hay);
    let n = chars_of(needle);
    find(&h, &n).is_some()
}

/// Does `s` end with `suffix`?
pub fn ends_with(s: &str, suffix: &str) -> (r: bool)
    ensures
        r == suffix@.is_suffix_of(s@),
{
    let h = chars_of(s);
    let n = chars_of(suffix);
    if n.len() > h.len() {
        return false;
    }
    let at: usize = h.len() - n.len();
    let r = matches_at(&h, at, &n);
    assert(h@.skip(at as int).take(n@.len() as int) =~= h@.subrange(at as int, h@.len() as int));
    r
}

/// Does `s` start with `prefix`?
pub fn starts_with(s: &str, prefix: &str) -> (r: bool)
    ensures
        r == prefix@.is_prefix_of(s@),
{
    let h = chars_of(s);
    let n = chars_of(prefix);
    assert(h@.skip(0) =~= h@);
    matches_at(&h, 0, &n)
}

// ---- Lines, words, pieces ----

/// A text without one carriage return at its end.
pub open spec fn strip_cr_v(s: Seq<char>) -> Seq<char> {
    if s.len() > 0 && s.last() == '\r' {
        s.drop_last()
    } else {
        s
    }
}

/// A text without one line terminator (`\n` or `\r\n`) at its end.
pub open spec fn trim_eol_v(s: Seq<char>) -> Seq<char> {
    if s.len() > 0 && s.last() == '\n' {
        strip_cr_v(s.drop_last())
    } else {
        s
    }
}

/// The lines of a text: the pieces that end in `\n`, without their terminator, and what follows
/// the last `\n` where that is not empty.
pub open spec fn lines_v(s: Seq<char>) -> Seq<Seq<char>>
    decreases s.len(),
{
    let k = find_char_v(s, '\n');
    if s.len() == 0 {
        Seq::empty()
    } else if k >= s.len() || k < 0 {
        seq![s]
    } else {
        seq![strip_cr_v(s.take(k))] + lines_v(s.skip(k + 1))
    }
}

/// Where `lines_v` has at most one line for each character.
pub proof fn lemma_lines_len(s: Seq<char>)
    ensures
        lines_v(s).len() <= s.len(),
    decreases s.len(),
{
    let k = find_char_v(s, '\n');
    if s.len() > 0 && 0 <= k < s.len() {
        lemma_lines_len(s.skip(k + 1));
    }
}

/// The lines of `s`, without their terminators.
pub fn lines(s: &str) -> (r: Vec<String>)
    ensures
        r.deep_view() == lines_v(s@),
{
    let cs = chars_of(s);
    let n: usize = cs.len();
    let mut out: Vec<String> = Vec::new();
    let mut i: usize = 0;
    assert(cs@.skip(0) =~= cs@);
    while i < n
        invariant
            i <= n == cs@.len(),
            lines_v(cs@) =~= out.deep_view() + lines_v(cs@.skip(i as int)),
        decreases n - i,
    {
        let ghost rest = cs@.skip(i as int);
        let k: usize = find_char(&cs, i, '\n');
        let ghost before = out.deep_view();
        let end: usize = if k < n && k > i && cs[k - 1] == '\r' {
            k - 1
        } else {
            k
        };
        let line = slice_string(&cs, i, end);
        assert(rest.take(k - i) =~= cs@.subrange(i as int, k as int));
        if k < n {
            assert(strip_cr_v(rest.take(k - i)) =~= line@);
            assert(rest.skip(k - i + 1) =~= cs@.skip(k + 1));
        } else {
            assert(rest =~= line@);
            assert(cs@.skip(n as int) =~= Seq::empty());
        }
        out.push(line);
        assert(out.deep_view() =~= before.push(line@));
        i = if k < n {
            k + 1
        } else {
            n
        };
    }
    assert(cs@.skip(n as int) =~= Seq::empty());
    out
}

/// How many characters lead a text before its first white one.
pub open spec fn word_len_v(s: Seq<char>) -> int
    decreases s.len(),
{
    if s.len() == 0 || white(s[0]) {
        0
    } else {
        1 + word_len_v(s.drop_first())
    }
}

/// `word_len_v` is a length within the text, and `trim_start_v` makes none longer.
pub proof fn lemma_word_len(s: Seq<char>)
    ensures
        0 <= word_len_v(s) <= s.len(),
        s.len() > 0 && !white(s[0]) ==> word_len_v(s) > 0,
        trim_start_v(s).len() <= s.len(),
        trim_start_v(s).len() > 0 ==> !white(trim_start_v(s)[0]),
    decreases s.len(),
{
    if s.len() > 0 {
        lemma_word_len(s.drop_first());
    }
}

/// The maximal runs of non-white characters.
pub open spec fn words_v(s: Seq<char>) -> Seq<Seq<char>>
    decreases s.len(),
{
    let t = trim_start_v(s);
    if t.len() == 0 {
        Seq::empty()
    } else {
        proof {
            lemma_word_len(s);
            lemma_word_len(t);
        }
        seq![t.take(word_len_v(t))] + words_v(t.skip(word_len_v(t)))
    }
}

/// The words of `s`.
pub fn words(s: &str) -> (r: Vec<String>)
    ensures
        r.deep_view() == words_v(s@),
{
    let cs = chars_of(s);
    let n: usize = cs.len();
    let mut out: Vec<String> = Vec::new();
    let mut i: usize = 0;
    assert(cs@.skip(0) =~= cs@);
    while i < n
        invariant
            i <= n == cs@.len(),
            words_v(cs@) =~= out.deep_view() + words_v(cs@.skip(i as int)),
        decreases n - i,
    {
        let ghost before = out.deep_view();
        let a: usize = white_run(&cs, i);
        let mut b: usize = a;
        while b < n && !is_white(cs[b])
            invariant
                a <= b <= n == cs@.len(),
                word_len_v(cs@.skip(a as int)) == b - a + word_len_v(cs@.skip(b as int)),
            decreases n - b,
        {
            assert(cs@.skip(b as int).drop_first() =~= cs@.skip(b + 1));
            b = b + 1;
        }
        if a < n {
            let w = slice_string(&cs, a, b);
            assert(cs@.skip(a as int).take(b - a) =~= w@);
            assert(cs@.skip(a as int).skip(b - a) =~= cs@.skip(b as int));
            out.push(w);
            assert(out.deep_view() =~= before.push(w@));
            proof {
                lemma_word_len(cs@.skip(a as int));
            }
        } else {
            assert(cs@.skip(n as int) =~= Seq::empty());
            assert(words_v(cs@.skip(n as int)) =~= Seq::empty());
        }
        i = b;
    }
    assert(cs@.skip(n as int) =~= Seq::empty());
    assert(words_v(cs@.skip(n as int)) =~= Seq::empty());
    out
}

/// The pieces one after the other, with `sep` between each two.
pub open spec fn join_v(parts: Seq<Seq<char>>, sep: Seq<char>) -> Seq<char>
    decreases parts.len(),
{
    if parts.len() == 0 {
        Seq::empty()
    } else if parts.len() == 1 {
        parts[0]
    } else {
        join_v(parts.drop_last(), sep) + sep + parts.last()
    }
}

/// The pieces one after the other, with `sep` between each two.
pub fn join(parts: &[String], sep: &str) -> (r: String)
    ensures
        r@ == join_v(parts.deep_view(), sep@),
{
    let mut out: String = String::new();
    let mut i: usize = 0;
    let ghost all = parts.deep_view();
    assert(all.len() == parts@.len());
    while i < parts.len()
        invariant
            i <= parts@.len(),
            all == parts.deep_view(),
            all.len() == parts@.len(),
            out@ == join_v(all.take(i as int), sep@),
        decreases parts@.len() - i,
    {
        assert(all.take(i + 1).drop_last() =~= all.take(i as int));
        if i > 0 {
            out.append(sep);
        }
        out.append(parts[i].as_str());
        assert(all[i as int] == parts@[i as int]@);
        if i == 0 {
            assert(all.take(1)[0] == parts@[0]@);
            assert(join_v(all.take(1), sep@) =~= out@);
        }
        i = i + 1;
    }
    assert(all.take(all.len() as int) =~= all);
    out
}

/// A line with its runs of whitespace collapsed to one space and none at its ends.
pub open spec fn normalize_v(s: Seq<char>) -> Seq<char> {
    join_v(words_v(s), " "@)
}

/// Is a text a word: not empty, and without whitespace?
pub open spec fn is_word(w: Seq<char>) -> bool {
    w.len() > 0 && forall|i: int| 0 <= i < w.len() ==> !white(#[trigger] w[i])
}

/// Are all of these words?
pub open spec fn all_words(parts: Seq<Seq<char>>) -> bool {
    forall|i: int| 0 <= i < parts.len() ==> is_word(#[trigger] parts[i])
}

/// What leads a text before its first white character holds none.
proof fn lemma_word_run(s: Seq<char>)
    ensures
        0 <= word_len_v(s) <= s.len(),
        forall|i: int| 0 <= i < word_len_v(s) ==> !white(#[trigger] s[i]),
    decreases s.len(),
{
    if s.len() > 0 && !white(s[0]) {
        let t = s.drop_first();
        lemma_word_run(t);
        assert forall|i: int| 0 <= i < word_len_v(s) implies !white(#[trigger] s[i]) by {
            if i > 0 {
                assert(s[i] == t[i - 1]);
            }
        }
    }
}

/// What follows a word, where it starts with whitespace, is not counted to it.
proof fn lemma_word_len_sum(w: Seq<char>, t: Seq<char>)
    requires
        forall|i: int| 0 <= i < w.len() ==> !white(#[trigger] w[i]),
        t.len() == 0 || white(t[0]),
    ensures
        word_len_v(w + t) == w.len(),
    decreases w.len(),
{
    if w.len() == 0 {
        assert(w + t =~= t);
    } else {
        lemma_word_len_sum(w.drop_first(), t);
        assert((w + t).drop_first() =~= w.drop_first() + t);
        assert((w + t)[0] == w[0]);
    }
}

/// The words of a text are words.
proof fn lemma_words_are_words(s: Seq<char>)
    ensures
        all_words(words_v(s)),
    decreases s.len(),
{
    let t = trim_start_v(s);
    lemma_word_len(s);
    if t.len() > 0 {
        lemma_word_len(t);
        lemma_word_run(t);
        let w = t.take(word_len_v(t));
        let rest = t.skip(word_len_v(t));
        lemma_words_are_words(rest);
        assert forall|i: int| 0 <= i < w.len() implies !white(#[trigger] w[i]) by {
            assert(w[i] == t[i]);
        }
        assert(words_v(s) =~= seq![w] + words_v(rest));
    }
}

/// Words with a space between each two have these words, and no whitespace but those spaces.
proof fn lemma_joined_words(parts: Seq<Seq<char>>)
    requires
        all_words(parts),
    ensures
        words_v(join_v(parts, " "@)) == parts,
        tidy(join_v(parts, " "@)),
        parts.len() > 0 ==> join_v(parts, " "@).len() > 0,
    decreases parts.len(),
{
    reveal_strlit(" ");
    let all = join_v(parts, " "@);
    if parts.len() == 0 {
        assert(all =~= Seq::empty());
        assert(words_v(all) =~= parts);
    } else {
        let w = parts[0];
        let tail = parts.drop_first();
        assert(is_word(w));
        assert forall|i: int| 0 <= i < tail.len() implies is_word(#[trigger] tail[i]) by {
            assert(tail[i] == parts[i + 1]);
        }
        lemma_joined_words(tail);
        let after = if parts.len() == 1 {
            Seq::<char>::empty()
        } else {
            " "@ + join_v(tail, " "@)
        };
        if parts.len() == 1 {
            assert(all =~= w + after);
            assert(tail =~= Seq::empty());
            assert(words_v(after) =~= tail);
        } else {
            lemma_join_first(parts, " "@);
            assert(all =~= w + after);
            assert(after.drop_first() =~= join_v(tail, " "@));
            assert(trim_start_v(after) == trim_start_v(after.drop_first()));
            assert(words_v(after) == words_v(after.drop_first()));
        }
        lemma_word_len_sum(w, after);
        assert(all[0] == w[0]);
        assert(trim_start_v(all) == all);
        assert(all.take(w.len() as int) =~= w);
        assert(all.skip(w.len() as int) =~= after);
        assert(words_v(all) =~= seq![w] + tail);
        assert(parts =~= seq![w] + tail);
        lemma_tidy_sum(w, tail, all);
    }
}

/// A word before a space and a tidy text is tidy.
proof fn lemma_tidy_sum(w: Seq<char>, tail: Seq<Seq<char>>, all: Seq<char>)
    requires
        is_word(w),
        tail.len() == 0 ==> all == w,
        tail.len() > 0 ==> all == w + (" "@ + join_v(tail, " "@)),
        tail.len() > 0 ==> join_v(tail, " "@).len() > 0,
        tidy(join_v(tail, " "@)),
    ensures
        tidy(all),
{
    reveal_strlit(" ");
    if tail.len() > 0 {
        let j = join_v(tail, " "@);
        let n = w.len() as int;
        assert forall|i: int| 0 <= i < all.len() && white(#[trigger] all[i]) implies all[i] == ' '
            && 0 < i < all.len() - 1 && !white(all[i - 1]) && !white(all[i + 1]) by {
            if i < n {
                assert(all[i] == w[i]);
            } else if i == n {
                assert(all[n - 1] == w[n - 1]);
                assert(all[n + 1] == j[0]);
            } else {
                let k = i - n - 1;
                assert(all[i] == j[k]);
                assert(all[i - 1] == j[k - 1]);
                assert(all[i + 1] == j[k + 1]);
            }
        }
    }
}

/// Does whitespace stand in a text only as one space between other characters?
pub open spec fn tidy(s: Seq<char>) -> bool {
    forall|i: int|
        0 <= i < s.len() && white(#[trigger] s[i]) ==> s[i] == ' ' && 0 < i < s.len() - 1 && !white(
            s[i - 1],
        ) && !white(s[i + 1])
}

/// Normalizing a line keeps its words and leaves no whitespace but one space between each two;
/// doing it again changes nothing.
pub proof fn law_normalize(s: Seq<char>)
    ensures
        words_v(normalize_v(s)) == words_v(s),
        tidy(normalize_v(s)),
        normalize_v(normalize_v(s)) == normalize_v(s),
{
    lemma_words_are_words(s);
    lemma_joined_words(words_v(s));
}

/// Two lines are the same when normalized exactly where they have the same words.
pub proof fn law_normalize_same(s: Seq<char>, t: Seq<char>)
    ensures
        normalize_v(s) == normalize_v(t) <==> words_v(s) == words_v(t),
{
    law_normalize(s);
    law_normalize(t);
}

/// The pieces of a text between occurrences of `c`.
pub open spec fn split_v(s: Seq<char>, c: char) -> Seq<Seq<char>>
    decreases s.len(),
{
    let k = find_char_v(s, c);
    if 0 <= k < s.len() {
        seq![s.take(k)] + split_v(s.skip(k + 1), c)
    } else {
        seq![s]
    }
}

/// Joining takes the first piece, then the others.
proof fn lemma_join_first(parts: Seq<Seq<char>>, sep: Seq<char>)
    requires
        parts.len() >= 2,
    ensures
        join_v(parts, sep) == parts[0] + sep + join_v(parts.drop_first(), sep),
    decreases parts.len(),
{
    let rest = parts.drop_first();
    if parts.len() == 2 {
        assert(join_v(parts.drop_last(), sep) == parts[0]);
        assert(join_v(rest, sep) == parts[1]);
    } else {
        lemma_join_first(parts.drop_last(), sep);
        assert(parts.drop_last().drop_first() =~= rest.drop_last());
        assert(rest.last() == parts.last());
    }
    assert(join_v(parts, sep) =~= parts[0] + sep + join_v(rest, sep));
}

/// Joining the pieces of a text gives the text back.
pub proof fn law_split_join(s: Seq<char>, c: char)
    ensures
        split_v(s, c).len() > 0,
        join_v(split_v(s, c), seq![c]) == s,
    decreases s.len(),
{
    let k = find_char_v(s, c);
    if 0 <= k < s.len() {
        lemma_find_char(s, c);
        let rest = split_v(s.skip(k + 1), c);
        let parts = split_v(s, c);
        law_split_join(s.skip(k + 1), c);
        lemma_join_first(parts, seq![c]);
        assert(parts.drop_first() =~= rest);
        assert(s.take(k) + seq![c] + s.skip(k + 1) =~= s);
    }
}

/// The pieces of `s` between occurrences of `c`.
pub fn split(s: &str, c: char) -> (r: Vec<String>)
    ensures
        r.deep_view() == split_v(s@, c),
{
    let cs = chars_of(s);
    let n: usize = cs.len();
    let mut out: Vec<String> = Vec::new();
    let mut i: usize = 0;
    assert(cs@.skip(0) =~= cs@);
    loop
        invariant
            i <= n == cs@.len(),
            cs@ == s@,
            split_v(cs@, c) =~= out.deep_view() + split_v(cs@.skip(i as int), c),
        decreases n - i,
    {
        let ghost rest = cs@.skip(i as int);
        let ghost before = out.deep_view();
        let k: usize = find_char(&cs, i, c);
        let piece = slice_string(&cs, i, k);
        if k < n {
            assert(rest.take(k - i) =~= piece@);
            assert(rest.skip(k - i + 1) =~= cs@.skip(k + 1));
            out.push(piece);
            assert(out.deep_view() =~= before.push(piece@));
            i = k + 1;
        } else {
            assert(rest =~= piece@);
            out.push(piece);
            assert(out.deep_view() =~= before.push(piece@));
            return out;
        }
    }
}

// ---- Padding ----

/// `c`, `n` times.
pub open spec fn repeat_v(c: char, n: nat) -> Seq<char> {
    Seq::new(n, |i: int| c)
}

/// `c`, `n` times.
pub fn repeat(c: char, n: usize) -> (r: String)
    ensures
        r@ == repeat_v(c, n as nat),
{
    let mut out: String = String::new();
    let mut i: usize = 0;
    while i < n
        invariant
            i <= n,
            out@ =~= repeat_v(c, i as nat),
        decreases n - i,
    {
        out.push(c);
        i = i + 1;
    }
    out
}

/// A text led by as many spaces as it lacks characters to a width.
pub open spec fn pad_left_v(s: Seq<char>, width: nat) -> Seq<char> {
    if s.len() >= width {
        s
    } else {
        repeat_v(' ', (width - s.len()) as nat) + s
    }
}

/// A text followed by as many spaces as it lacks characters to a width.
pub open spec fn pad_right_v(s: Seq<char>, width: nat) -> Seq<char> {
    if s.len() >= width {
        s
    } else {
        s + repeat_v(' ', (width - s.len()) as nat)
    }
}

/// `s` led by as many spaces as it lacks characters to `width`.
pub fn pad_left(s: &str, width: usize) -> (r: String)
    ensures
        r@ == pad_left_v(s@, width as nat),
{
    let cs = chars_of(s);
    if cs.len() >= width {
        s.to_owned()
    } else {
        let mut out = repeat(' ', width - cs.len());
        out.append(s);
        out
    }
}

/// `s` followed by as many spaces as it lacks characters to `width`.
pub fn pad_right(s: &str, width: usize) -> (r: String)
    ensures
        r@ == pad_right_v(s@, width as nat),
{
    let cs = chars_of(s);
    let mut out = s.to_owned();
    if cs.len() < width {
        let fill = repeat(' ', width - cs.len());
        out.append(fill.as_str());
    }
    out
}

// ---- Numbers ----

/// The digit that stands for `d` in bases up to sixteen.
pub open spec fn digit_v(d: int) -> char {
    if d < 10 {
        (48 + d) as char
    } else {
        (87 + d) as char
    }
}

/// The digit that stands for `d`.
pub fn digit(d: u8) -> (r: char)
    requires
        d < 16,
    ensures
        r == digit_v(d as int),
{
    if d < 10 {
        (48 + d) as char
    } else {
        (87 + d) as char
    }
}

/// What a digit stands for in a base of at most sixteen, where it is one.
pub open spec fn digit_value_v(c: char, radix: int) -> Option<int> {
    let u = c as int;
    let d = if 48 <= u <= 57 {
        u - 48
    } else if 65 <= u <= 70 {
        u - 55
    } else if 97 <= u <= 102 {
        u - 87
    } else {
        16
    };
    if d < radix {
        Some(d)
    } else {
        None
    }
}

/// What `c` stands for as a digit in base `radix`.
pub fn digit_value(c: char, radix: u64) -> (r: Option<u64>)
    requires
        radix <= 16,
    ensures
        r is Some == digit_value_v(c, radix as int) is Some,
        r matches Some(d) ==> digit_value_v(c, radix as int) == Some(d as int) && d < radix,
{
    let u: u32 = c as u32;
    let d: u64 = if 48 <= u && u <= 57 {
        (u - 48) as u64
    } else if 65 <= u && u <= 70 {
        (u - 55) as u64
    } else if 97 <= u && u <= 102 {
        (u - 87) as u64
    } else {
        16
    };
    if d < radix {
        Some(d)
    } else {
        None
    }
}

/// A number written in base ten.
pub open spec fn decimal_v(n: nat) -> Seq<char>
    decreases n,
{
    if n < 10 {
        seq![digit_v(n as int)]
    } else {
        decimal_v(n / 10).push(digit_v((n % 10) as int))
    }
}

/// `n` written in base ten.
pub fn decimal(n: u64) -> (r: String)
    ensures
        r@ == decimal_v(n as nat),
    decreases n,
{
    if n < 10 {
        let mut s = String::new();
        s.push(digit(n as u8));
        s
    } else {
        let mut s = decimal(n / 10);
        s.push(digit((n % 10) as u8));
        s
    }
}

/// A character as a text.
pub fn char_text(c: char) -> (r: String)
    ensures
        r@ == seq![c],
{
    let mut s = String::new();
    s.push(c);
    assert(s@ =~= seq![c]);
    s
}

/// `n` written in base ten.
pub fn decimal_usize(n: usize) -> (r: String)
    ensures
        r@ == decimal_v(n as nat),
{
    decimal(n as u64)
}

/// A whole number written in base ten, with a sign where it is negative.
pub open spec fn signed_v(n: int) -> Seq<char> {
    if n < 0 {
        "-"@ + decimal_v((-n) as nat)
    } else {
        decimal_v(n as nat)
    }
}

/// `n` written in base ten.
pub fn signed(n: i32) -> (r: String)
    ensures
        r@ == signed_v(n as int),
{
    if n < 0 {
        let mut s = "-".to_owned();
        let digits = decimal((-(n as i64)) as u64);
        s.append(digits.as_str());
        s
    } else {
        decimal(n as u64)
    }
}

/// A number in base sixteen, written with exactly `width` digits (its low ones).
pub open spec fn hex_v(n: nat, width: nat) -> Seq<char>
    decreases width,
{
    if width == 0 {
        Seq::empty()
    } else {
        hex_v(n / 16, (width - 1) as nat).push(digit_v((n % 16) as int))
    }
}

/// `n` in base sixteen, written with exactly `width` digits.
pub fn hex(n: u64, width: u8) -> (r: String)
    ensures
        r@ == hex_v(n as nat, width as nat),
    decreases width,
{
    if width == 0 {
        String::new()
    } else {
        let mut s = hex(n / 16, width - 1);
        s.push(digit((n % 16) as u8));
        s
    }
}

/// The number that a run of digits writes in a base, where each is a digit.
pub open spec fn value_v(s: Seq<char>, radix: int) -> Option<int>
    decreases s.len(),
{
    if s.len() == 0 {
        Some(0)
    } else {
        match (value_v(s.drop_last(), radix), digit_value_v(s.last(), radix)) {
            (Some(v), Some(d)) => Some(v * radix + d),
            _ => None,
        }
    }
}

/// The number of at most `max` that a text writes in a base: an optional `+`, then at least one
/// digit and nothing else.
pub open spec fn parse_v(s: Seq<char>, radix: int, max: int) -> Option<int> {
    let body = if s.len() > 0 && s[0] == '+' {
        s.skip(1)
    } else {
        s
    };
    match value_v(body, radix) {
        Some(v) => if body.len() > 0 && v <= max {
            Some(v)
        } else {
            None
        },
        None => None,
    }
}

/// A text with a character that is no digit writes no number.
proof fn lemma_value_none(s: Seq<char>, i: int, radix: int)
    requires
        0 <= i < s.len(),
        digit_value_v(s[i], radix) is None,
    ensures
        value_v(s, radix) is None,
    decreases s.len(),
{
    if i < s.len() - 1 {
        lemma_value_none(s.drop_last(), i, radix);
    }
}

/// The number of at most `max` that `s` writes in base `radix`.
pub fn parse(s: &str, radix: u64, max: u64) -> (r: Option<u64>)
    requires
        2 <= radix <= 16,
    ensures
        r is Some == parse_v(s@, radix as int, max as int) is Some,
        r matches Some(v) ==> parse_v(s@, radix as int, max as int) == Some(v as int) && v <= max,
{
    let cs = chars_of(s);
    let n: usize = cs.len();
    let start: usize = if n > 0 && cs[0] == '+' {
        1
    } else {
        0
    };
    let ghost body = cs@.skip(start as int);
    assert(start == 0 ==> body =~= s@);
    if start == n {
        return None;
    }
    let mut acc: u64 = 0;
    let mut over: bool = false;
    let mut i: usize = start;
    assert(body.take(0) =~= Seq::empty());
    while i < n
        invariant
            start <= i <= n == cs@.len(),
            cs@ == s@,
            2 <= radix <= 16,
            body == cs@.skip(start as int),
            parse_v(s@, radix as int, max as int) == (match value_v(body, radix as int) {
                Some(v) => if body.len() > 0 && v <= max {
                    Some(v)
                } else {
                    None
                },
                None => None,
            }),
            value_v(body.take(i - start), radix as int) is Some,
            !over ==> value_v(body.take(i - start), radix as int) == Some(acc as int) && acc <= max,
            over ==> value_v(body.take(i - start), radix as int)->0 > max,
        decreases n - i,
    {
        let ghost v0 = value_v(body.take(i - start), radix as int)->0;
        assert(body.take(i - start + 1).drop_last() =~= body.take(i - start));
        assert(body[i - start] == cs@[i as int]);
        match digit_value(cs[i], radix) {
            None => {
                proof {
                    lemma_value_none(body, i - start, radix as int);
                }
                return None;
            },
            Some(d) => {
                assert(v0 * radix >= v0) by (nonlinear_arith)
                    requires
                        v0 >= 0,
                        radix >= 2,
                ;
                if !over {
                    let wide: u128 = acc as u128;
                    assert(wide * radix <= 0xffff_ffff_ffff_ffff * 16) by (nonlinear_arith)
                        requires
                            0 <= wide <= 0xffff_ffff_ffff_ffff,
                            2 <= radix <= 16,
                    ;
                    let next: u128 = wide * (radix as u128) + d as u128;
                    if next > max as u128 {
                        over = true;
                    } else {
                        acc = next as u64;
                    }
                }
            },
        }
        i = i + 1;
    }
    assert(body.take(body.len() as int) =~= body);
    if over {
        None
    } else {
        Some(acc)
    }
}

/// A written hexadecimal number reads back as itself.
pub proof fn lemma_hex_value(n: nat, width: nat)
    requires
        n < vstd::arithmetic::power::pow(16, width),
    ensures
        value_v(hex_v(n, width), 16) == Some(n as int),
        hex_v(n, width).len() == width,
        width > 0 ==> hex_v(n, width)[0] != '+',
    decreases width,
{
    reveal(vstd::arithmetic::power::pow);
    if width > 0 {
        let w = (width - 1) as nat;
        lemma_hex_value(n / 16, w);
        assert(hex_v(n, width).drop_last() =~= hex_v(n / 16, w));
        if w > 0 {
            assert(hex_v(n, width)[0] == hex_v(n / 16, w)[0]);
        }
    } else {
        assert(n == 0);
    }
}

// ---- ASCII letters ----

/// A character with an ASCII capital made small.
pub open spec fn ascii_lower_char_v(c: char) -> char {
    let u = c as u32;
    if 65 <= u <= 90 {
        (u + 32) as char
    } else {
        c
    }
}

/// A text with its ASCII capitals made small.
pub open spec fn ascii_lower_v(s: Seq<char>) -> Seq<char> {
    s.map_values(|c: char| ascii_lower_char_v(c))
}

/// `s` with its ASCII capitals made small.
pub fn ascii_lower(s: &str) -> (r: String)
    ensures
        r@ == ascii_lower_v(s@),
{
    let cs = chars_of(s);
    let mut out = String::new();
    let mut i: usize = 0;
    while i < cs.len()
        invariant
            i <= cs@.len(),
            out@ =~= ascii_lower_v(cs@).take(i as int),
        decreases cs@.len() - i,
    {
        let u: u32 = cs[i] as u32;
        if 65 <= u && u <= 90 {
            out.push((u as u8 + 32) as char);
        } else {
            out.push(cs[i]);
        }
        i = i + 1;
    }
    assert(ascii_lower_v(cs@).take(cs@.len() as int) =~= ascii_lower_v(cs@));
    out
}

// ---- Laws of texts ----

proof fn lemma_trim_start(s: Seq<char>)
    ensures
        ({
            let k = s.len() - trim_start_v(s).len();
            &&& 0 <= k <= s.len()
            &&& trim_start_v(s) == s.skip(k)
            &&& forall|i: int| 0 <= i < k ==> white(#[trigger] s[i])
            &&& trim_start_v(s).len() > 0 ==> !white(trim_start_v(s)[0])
        }),
    decreases s.len(),
{
    if s.len() > 0 && white(s[0]) {
        let t = s.drop_first();
        lemma_trim_start(t);
        let k = s.len() - trim_start_v(s).len();
        assert(t.skip(k - 1) =~= s.skip(k));
        assert forall|i: int| 0 <= i < k implies white(#[trigger] s[i]) by {
            if i > 0 {
                assert(t[i - 1] == s[i]);
            }
        }
    } else {
        assert(s.skip(0) =~= s);
    }
}

proof fn lemma_trim_end(s: Seq<char>)
    ensures
        ({
            let k = trim_end_v(s).len() as int;
            &&& 0 <= k <= s.len()
            &&& trim_end_v(s) == s.take(k)
            &&& forall|i: int| k <= i < s.len() ==> white(#[trigger] s[i])
            &&& k > 0 ==> !white(trim_end_v(s).last())
        }),
    decreases s.len(),
{
    if s.len() > 0 && white(s.last()) {
        let t = s.drop_last();
        lemma_trim_end(t);
        let k = trim_end_v(s).len() as int;
        assert(t.take(k) =~= s.take(k));
        assert forall|i: int| k <= i < s.len() implies white(#[trigger] s[i]) by {
            if i < t.len() {
                assert(t[i] == s[i]);
            }
        }
    } else {
        assert(s.take(s.len() as int) =~= s);
    }
}

/// Trimming takes whitespace off both ends, and nothing else: what is left neither starts nor ends
/// with whitespace, and what is between two texts of whitespace is left as it is.
pub proof fn law_trim(a: Seq<char>, s: Seq<char>, b: Seq<char>)
    requires
        forall|i: int| 0 <= i < a.len() ==> white(#[trigger] a[i]),
        forall|i: int| 0 <= i < b.len() ==> white(#[trigger] b[i]),
        s.len() > 0 ==> !white(s[0]) && !white(s.last()),
    ensures
        trim_v(a + s + b) == s,
{
    let t = a + s + b;
    lemma_trim_start(t);
    let m = trim_start_v(t);
    let k = t.len() - m.len();
    if s.len() > 0 {
        assert(t[a.len() as int] == s[0]);
        if k < a.len() {
            assert(m[0] == t[k] && t[k] == a[k]);
        }
        assert(k == a.len());
        assert(m =~= s + b);
        lemma_trim_end(m);
        let n = trim_end_v(m).len() as int;
        if n < s.len() {
            assert(white(m[s.len() - 1]));
            assert(m[s.len() - 1] == s.last());
        } else if n > s.len() {
            assert(trim_end_v(m).last() == m[n - 1]);
            assert(m[n - 1] == b[n - 1 - s.len()]);
        }
        assert(m.take(n) =~= s);
    } else {
        if m.len() > 0 {
            assert(m[0] == t[k]);
            if k < a.len() {
                assert(t[k] == a[k]);
            } else {
                assert(t[k] == b[k - a.len()]);
            }
        }
        assert(m.len() == 0);
        assert(trim_v(t) =~= s);
    }
}

/// Whitespace is what separates words: a space, a tab, a line break, and the other spaces.
pub proof fn law_white(c: char)
    ensures
        white(' ') && white('\t') && white('\n') && white('\r'),
        white('\u{b}') && white('\u{c}') && white('\u{85}') && white('\u{a0}'),
        white('\u{1680}') && white('\u{2028}') && white('\u{2029}') && white('\u{202f}'),
        white('\u{205f}') && white('\u{3000}'),
        0x2000 <= c as u32 <= 0x200a ==> white(c),
        0x21 <= c as u32 <= 0x7e ==> !white(c),
        c as u32 <= 8 || 14 <= c as u32 <= 31 ==> !white(c),
        c as u32 > 0x3000 ==> !white(c),
        !white('\u{200b}') && !white('\u{feff}'),
{
}

/// A text is read line by line: each ends before a newline, without a carriage return before that;
/// what is left behind the last newline is a line unless it is empty.
pub proof fn law_lines(l: Seq<char>, rest: Seq<char>)
    requires
        !l.contains('\n'),
    ensures
        lines_v(l.push('\n') + rest) == seq![strip_cr_v(l)] + lines_v(rest),
        l.len() > 0 ==> lines_v(l) == seq![l],
        lines_v(Seq::empty()).len() == 0,
        strip_cr_v(l.push('\r')) == l,
        l.len() > 0 && l.last() != '\r' ==> strip_cr_v(l) == l,
{
    let s = l.push('\n') + rest;
    lemma_find_char(s, '\n');
    let k = find_char_v(s, '\n');
    assert(s[l.len() as int] == '\n');
    if k < l.len() {
        assert(l[k] == '\n');
    }
    assert(k == l.len());
    assert(s.take(k) =~= l);
    assert(s.skip(k + 1) =~= rest);
    lemma_find_char(l, '\n');
    if find_char_v(l, '\n') < l.len() {
        assert(l[find_char_v(l, '\n')] == '\n');
    }
    assert(l.push('\r').drop_last() =~= l);
}

/// A number is written in decimal digits, without a zero in front, and reads back as itself.
pub proof fn law_decimal(n: nat)
    ensures
        value_v(decimal_v(n), 10) == Some(n as int),
        decimal_v(n).len() > 0,
        n > 0 ==> decimal_v(n)[0] != '0',
        forall|i: int| 0 <= i < decimal_v(n).len() ==> '0' <= #[trigger] decimal_v(n)[i] <= '9',
    decreases n,
{
    reveal_with_fuel(value_v, 2);
    let d = (n % 10) as int;
    lemma_digit(d);
    if n < 10 {
        assert(decimal_v(n).drop_last() =~= Seq::empty());
        assert(value_v(Seq::empty(), 10) == Some(0int));
    } else {
        law_decimal(n / 10);
        assert(decimal_v(n).drop_last() =~= decimal_v(n / 10));
        assert(n / 10 > 0);
    }
}

proof fn lemma_digit(d: int)
    requires
        0 <= d < 10,
    ensures
        digit_value_v(digit_v(d), 10) == Some(d),
        '0' <= digit_v(d) <= '9',
        d > 0 ==> digit_v(d) != '0',
{
}

/// Padding adds spaces on one side up to a width, and takes nothing away.
pub proof fn law_pad(s: Seq<char>, width: nat)
    ensures
        ({
            let n = if s.len() < width {
                width
            } else {
                s.len()
            };
            &&& pad_left_v(s, width).len() == n
            &&& pad_right_v(s, width).len() == n
            &&& s.is_suffix_of(pad_left_v(s, width))
            &&& s.is_prefix_of(pad_right_v(s, width))
            &&& forall|i: int|
                0 <= i < n - s.len() ==> #[trigger] pad_left_v(s, width)[i] == ' '
            &&& forall|i: int| s.len() <= i < n ==> #[trigger] pad_right_v(s, width)[i] == ' '
        }),
{
    let n = if s.len() < width {
        width
    } else {
        s.len()
    };
    let l = pad_left_v(s, width);
    let r = pad_right_v(s, width);
    assert(l.skip(n - s.len()) =~= s);
    assert(r.take(s.len() as int) =~= s);
    assert(l.subrange(n - s.len(), n as int) =~= s);
    assert(r.subrange(0, s.len() as int) =~= s);
}

/// A text contains another where it occurs at some place.
pub proof fn law_contains(a: Seq<char>, needle: Seq<char>, b: Seq<char>)
    ensures
        contains_v(a + needle + b, needle),
        contains_v(a, needle) ==> exists|i: int|
            0 <= i <= a.len() - needle.len() && needle == #[trigger] a.subrange(
                i,
                i + needle.len(),
            ),
{
    let s = a + needle + b;
    lemma_find(s, needle);
    let t = s.skip(a.len() as int);
    assert(t.subrange(0, needle.len() as int) =~= needle);
    assert(needle.is_prefix_of(t));
    lemma_find(a, needle);
    if let Some(i) = find_v(a, needle) {
        assert(a.skip(i).subrange(0, needle.len() as int) =~= a.subrange(i, i + needle.len()));
        assert(needle =~= a.subrange(i, i + needle.len()));
    }
}

/// Small letters stay, and a capital becomes its small letter; nothing else changes, nor does
/// lowering twice.
pub proof fn law_ascii_lower(s: Seq<char>, i: int)
    requires
        0 <= i < s.len(),
    ensures
        ascii_lower_v(s).len() == s.len(),
        ascii_lower_v(ascii_lower_v(s)) == ascii_lower_v(s),
        'A' <= s[i] <= 'Z' ==> ascii_lower_v(s)[i] as int == s[i] as int + 32,
        !('A' <= s[i] <= 'Z') ==> ascii_lower_v(s)[i] == s[i],
{
    let t = ascii_lower_v(s);
    assert forall|k: int| 0 <= k < s.len() implies ascii_lower_v(t)[k] == t[k] by {
        lemma_lower_char(s[k]);
    }
    assert(ascii_lower_v(t) =~= t);
    lemma_lower_char(s[i]);
}

proof fn lemma_lower_char(c: char)
    ensures
        ascii_lower_char_v(ascii_lower_char_v(c)) == ascii_lower_char_v(c),
        'A' <= c <= 'Z' ==> ascii_lower_char_v(c) as int == c as int + 32,
        !('A' <= c <= 'Z') ==> ascii_lower_char_v(c) == c,
{
}

} // verus!
