//! The display width of text, as the `unicode-width` crate gives it.
use vstd::prelude::*;

verus! {

/// The columns that a text takes.
pub uninterp spec fn str_width_v(s: Seq<char>) -> usize;

/// `unicode_width::UnicodeWidthStr::width`: the columns that a text takes. Claimed of it: it
/// depends on the text alone.
#[verifier::external_body]
pub(crate) fn str_width(s: &str) -> (r: usize)
    ensures
        r == str_width_v(s@),
{
    unicode_width::UnicodeWidthStr::width(s)
}

/// The columns that a character takes; `None` for a control character.
pub uninterp spec fn char_width_opt_v(c: char) -> Option<usize>;

/// `unicode_width::UnicodeWidthChar::width`: the columns that a character takes, `None` for a
/// control character. Claimed of it: it depends on the character alone.
#[verifier::external_body]
pub(crate) fn char_width_opt(c: char) -> (r: Option<usize>)
    ensures
        r == char_width_opt_v(c),
{
    unicode_width::UnicodeWidthChar::width(c)
}

/// The columns that a character takes, a control character none.
pub open spec fn char_width_v(c: char) -> int {
    match char_width_opt_v(c) {
        Some(w) => w as int,
        None => 0,
    }
}

/// The columns that `c` takes, a control character none.
pub fn char_width(c: char) -> (r: usize)
    ensures
        r == char_width_v(c),
{
    match char_width_opt(c) {
        Some(w) => w,
        None => 0,
    }
}

/// The sum of the columns of each character.
pub open spec fn chars_width_v(s: Seq<char>) -> int
    decreases s.len(),
{
    if s.len() == 0 {
        0
    } else {
        chars_width_v(s.drop_last()) + char_width_v(s.last())
    }
}

/// The columns of two texts after each other add up.
pub proof fn lemma_chars_width_add(a: Seq<char>, b: Seq<char>)
    ensures
        chars_width_v(a + b) == chars_width_v(a) + chars_width_v(b),
        chars_width_v(a) >= 0,
        chars_width_v(b) >= 0,
    decreases a.len() + b.len(),
{
    if b.len() == 0 {
        assert(a + b =~= a);
        if a.len() > 0 {
            lemma_chars_width_add(a.drop_last(), b);
        }
    } else {
        lemma_chars_width_add(a, b.drop_last());
        assert((a + b).drop_last() =~= a + b.drop_last());
    }
}

/// The longest end of a text whose characters fit in `budget` columns.
pub open spec fn fit_tail_v(s: Seq<char>, budget: int) -> Seq<char>
    decreases s.len(),
{
    if s.len() == 0 || chars_width_v(s) <= budget {
        s
    } else {
        fit_tail_v(s.drop_first(), budget)
    }
}

/// The longest start of a text whose characters fit in `budget` columns.
pub open spec fn fit_head_v(s: Seq<char>, budget: int) -> Seq<char>
    decreases s.len(),
{
    if s.len() == 0 || chars_width_v(s) <= budget {
        s
    } else {
        fit_head_v(s.drop_last(), budget)
    }
}

/// Where the tail of `s` that fits starts, from what is known of a start that fits while the
/// character before it does not.
proof fn lemma_fit_tail(s: Seq<char>, start: int, budget: int)
    requires
        0 <= start <= s.len(),
        chars_width_v(s.skip(start)) <= budget,
        start > 0 ==> chars_width_v(s.skip(start - 1)) > budget,
    ensures
        fit_tail_v(s, budget) == s.skip(start),
    decreases s.len(),
{
    if start == 0 {
        assert(s.skip(0) =~= s);
    } else {
        let t = s.drop_first();
        assert(s.take(start - 1) + s.skip(start - 1) =~= s);
        lemma_chars_width_add(s.take(start - 1), s.skip(start - 1));
        assert(t.skip(start - 1) =~= s.skip(start));
        if start > 1 {
            assert(t.skip(start - 2) =~= s.skip(start - 1));
        }
        lemma_fit_tail(t, start - 1, budget);
    }
}

proof fn lemma_fit_head(s: Seq<char>, end: int, budget: int)
    requires
        0 <= end <= s.len(),
        chars_width_v(s.take(end)) <= budget,
        end < s.len() ==> chars_width_v(s.take(end + 1)) > budget,
    ensures
        fit_head_v(s, budget) == s.take(end),
    decreases s.len(),
{
    if end == s.len() {
        assert(s.take(end) =~= s);
    } else {
        let t = s.drop_last();
        assert(s.take(end + 1) + s.skip(end + 1) =~= s);
        lemma_chars_width_add(s.take(end + 1), s.skip(end + 1));
        assert(t.take(end) =~= s.take(end));
        if end + 1 < s.len() {
            assert(t.take(end + 1) =~= s.take(end + 1));
        }
        lemma_fit_head(t, end, budget);
    }
}

/// Where the longest end of `cs` starts whose characters fit in `budget` columns.
pub fn tail_start(cs: &Vec<char>, budget: usize) -> (r: usize)
    ensures
        r <= cs@.len(),
        cs@.skip(r as int) == fit_tail_v(cs@, budget as int),
        chars_width_v(cs@.skip(r as int)) <= budget,
{
    let mut width: usize = 0;
    let mut start: usize = cs.len();
    assert(cs@.skip(cs@.len() as int) =~= Seq::empty());
    while start > 0
        invariant
            start <= cs@.len(),
            width == chars_width_v(cs@.skip(start as int)),
            width <= budget,
        decreases start,
    {
        let w: usize = char_width(cs[start - 1]);
        assert(cs@.skip(start - 1) =~= seq![cs@[start - 1]] + cs@.skip(start as int));
        proof {
            lemma_chars_width_add(seq![cs@[start - 1]], cs@.skip(start as int));
            assert(seq![cs@[start - 1]].drop_last() =~= Seq::empty());
            assert(chars_width_v(Seq::empty()) == 0);
            assert(chars_width_v(seq![cs@[start - 1]]) == w);
        }
        if w > budget - width {
            proof {
                lemma_fit_tail(cs@, start as int, budget as int);
            }
            return start;
        }
        width = width + w;
        start = start - 1;
    }
    proof {
        lemma_fit_tail(cs@, 0, budget as int);
    }
    0
}

/// Where the longest start of `cs` ends whose characters fit in `budget` columns.
pub fn head_end(cs: &Vec<char>, budget: usize) -> (r: usize)
    ensures
        r <= cs@.len(),
        cs@.take(r as int) == fit_head_v(cs@, budget as int),
        chars_width_v(cs@.take(r as int)) <= budget,
{
    let mut width: usize = 0;
    let mut end: usize = 0;
    assert(cs@.take(0) =~= Seq::empty());
    while end < cs.len()
        invariant
            end <= cs@.len(),
            width == chars_width_v(cs@.take(end as int)),
            width <= budget,
        decreases cs@.len() - end,
    {
        let w: usize = char_width(cs[end]);
        assert(cs@.take(end + 1).drop_last() =~= cs@.take(end as int));
        if w > budget - width {
            proof {
                lemma_fit_head(cs@, end as int, budget as int);
            }
            return end;
        }
        width = width + w;
        end = end + 1;
    }
    proof {
        lemma_fit_head(cs@, end as int, budget as int);
    }
    end
}

} // verus!
