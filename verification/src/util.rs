//! Small formatting helpers shared by the screens.
use vstd::prelude::*;
use vstd::string::*;

use crate::text;
use crate::width;
use crate::text::{chars_of, decimal, decimal_usize, repeat, slice_string};
use crate::width::{head_end, str_width, tail_start};

verus! {

broadcast use vstd::seq_lib::group_seq_properties;

/// Digits with a comma before each group of three that others precede.
pub open spec fn grouped_v(digits: Seq<char>) -> Seq<char>
    decreases digits.len(),
{
    if digits.len() <= 3 {
        digits
    } else {
        grouped_v(digits.take(digits.len() - 3)).push(',') + digits.skip(digits.len() - 3)
    }
}

/// A number with thousands separators.
pub open spec fn commas_v(n: nat) -> Seq<char> {
    grouped_v(text::decimal_v(n))
}

/// Grouping puts a comma before every third digit from the end, and keeps the digits.
proof fn lemma_grouped(digits: Seq<char>)
    requires
        digits.len() > 0,
        forall|i: int| 0 <= i < digits.len() ==> (#[trigger] digits[i]) != ',',
    ensures
        forall|i: int|
            0 <= i < grouped_v(digits).len() ==> ((#[trigger] grouped_v(digits)[i]) == ','
                <==> (grouped_v(digits).len() - i) % 4 == 0),
        grouped_v(digits).filter(|c: char| c != ',') == digits,
    decreases digits.len(),
{
    let keep = |c: char| c != ',';
    let n = digits.len() as int;
    lemma_nothing_dropped(digits, keep);
    if n > 3 {
        let head = digits.take(n - 3);
        let tail = digits.skip(n - 3);
        let g = grouped_v(head);
        let all = grouped_v(digits);
        lemma_grouped(head);
        assert(all =~= g + seq![','] + tail);
        assert forall|i: int| 0 <= i < all.len() implies ((#[trigger] all[i]) == ',' <==> (all.len()
            - i) % 4 == 0) by {
            if i < g.len() {
                assert(all[i] == g[i]);
            } else if i > g.len() {
                assert(all[i] == tail[i - g.len() - 1]);
                assert(all[i] == digits[n - 3 + (i - g.len() - 1)]);
            }
        }
        lemma_nothing_dropped(tail, keep);
        Seq::filter_distributes_over_add(g + seq![','], tail, keep);
        Seq::filter_distributes_over_add(g, seq![','], keep);
        lemma_comma_dropped(keep);
        assert(all.filter(keep) =~= head + tail);
        assert(head + tail =~= digits);
    }
}

/// A filter that all pass drops nothing.
proof fn lemma_nothing_dropped(s: Seq<char>, keep: spec_fn(char) -> bool)
    requires
        forall|i: int| 0 <= i < s.len() ==> keep(#[trigger] s[i]),
    ensures
        s.filter(keep) == s,
    decreases s.len(),
{
    reveal(Seq::filter);
    if s.len() > 0 {
        lemma_nothing_dropped(s.drop_last(), keep);
        assert(s =~= s.drop_last().push(s.last()));
    }
}

/// A filter that a comma does not pass drops it.
proof fn lemma_comma_dropped(keep: spec_fn(char) -> bool)
    requires
        !keep(','),
    ensures
        seq![','].filter(keep) == Seq::<char>::empty(),
{
    reveal(Seq::filter);
    let s = seq![','];
    assert(s.drop_last() =~= Seq::empty());
    assert(s.drop_last().filter(keep) =~= Seq::empty());
}

/// A number is written in digits.
proof fn lemma_decimal_digits(n: nat)
    ensures
        text::decimal_v(n).len() > 0,
        forall|i: int| 0 <= i < text::decimal_v(n).len() ==> (#[trigger] text::decimal_v(n)[i]) != ',',
    decreases n,
{
    if n >= 10 {
        lemma_decimal_digits(n / 10);
    }
}

/// Thousands separators stand before every third digit from the end and nowhere else; without them
/// the number reads as usual.
pub proof fn law_commas(n: nat)
    ensures
        forall|i: int|
            0 <= i < commas_v(n).len() ==> ((#[trigger] commas_v(n)[i]) == ',' <==> (
            commas_v(n).len() - i) % 4 == 0),
        commas_v(n).filter(|c: char| c != ',') == text::decimal_v(n),
{
    lemma_decimal_digits(n);
    lemma_grouped(text::decimal_v(n));
}

/// The first `n` of `digits`, grouped.
fn grouped(digits: &Vec<char>, n: usize) -> (r: String)
    requires
        n <= digits@.len(),
    ensures
        r@ == grouped_v(digits@.take(n as int)),
    decreases n,
{
    let ghost all = digits@.take(n as int);
    if n <= 3 {
        let r = slice_string(digits, 0, n);
        assert(r@ =~= all);
        r
    } else {
        let mut s = grouped(digits, n - 3);
        assert(all.take(n - 3) =~= digits@.take(n - 3));
        s.push(',');
        let last = slice_string(digits, n - 3, n);
        s.append(last.as_str());
        assert(last@ =~= all.skip(n - 3));
        s
    }
}

/// An integer with thousands separators: `1247` is `1,247`.
pub fn commas(n: usize) -> (r: String)
    ensures
        r@ == commas_v(n as nat),
{
    let s = decimal_usize(n);
    let digits = chars_of(s.as_str());
    assert(digits@.take(digits@.len() as int) =~= digits@);
    grouped(&digits, digits.len())
}

/// A count with its noun, in the plural unless the count is one.
pub open spec fn plural_v(n: nat, word: Seq<char>) -> Seq<char> {
    if n == 1 {
        text::decimal_v(n) + " "@ + word
    } else {
        text::decimal_v(n) + " "@ + word + "s"@
    }
}

/// A count with its noun: `1 author`, `3 authors`.
pub fn plural(n: usize, word: &str) -> (r: String)
    ensures
        r@ == plural_v(n as nat, word@),
{
    let mut s = decimal_usize(n);
    s.append(" ");
    s.append(word);
    if n != 1 {
        s.append("s");
    }
    s
}

/// The seconds of a minute, an hour and so on.
pub const MINUTE: i64 = 60;

pub const HOUR: i64 = 3_600;

pub const DAY: i64 = 86_400;

pub const WEEK: i64 = 604_800;

pub const MONTH: i64 = 2_592_000;

pub const YEAR: i64 = 31_536_000;

/// The difference of two times, kept within the range of a 64-bit integer.
pub open spec fn elapsed_v(then_secs: int, now_secs: int) -> int {
    let d = now_secs - then_secs;
    if d > i64::MAX {
        i64::MAX as int
    } else if d < i64::MIN {
        i64::MIN as int
    } else {
        d
    }
}

/// How long ago something was, in the largest unit of which a whole one has passed.
pub open spec fn relative_age_v(then_secs: int, now_secs: int) -> Seq<char> {
    let d = elapsed_v(then_secs, now_secs);
    if d < 0 {
        "in the future"@
    } else if d < MINUTE {
        "just now"@
    } else if d < HOUR {
        text::decimal_v((d / MINUTE as int) as nat) + "m ago"@
    } else if d < DAY {
        text::decimal_v((d / HOUR as int) as nat) + "h ago"@
    } else if d < WEEK {
        text::decimal_v((d / DAY as int) as nat) + "d ago"@
    } else if d < MONTH {
        text::decimal_v((d / WEEK as int) as nat) + "w ago"@
    } else if d < YEAR {
        text::decimal_v((d / MONTH as int) as nat) + "mo ago"@
    } else {
        text::decimal_v((d / YEAR as int) as nat) + "y ago"@
    }
}

/// A number followed by a unit.
fn with_unit(n: u64, unit: &str) -> (r: String)
    ensures
        r@ == text::decimal_v(n as nat) + unit@,
{
    let mut s = decimal(n);
    s.append(unit);
    s
}

/// A relative age like `4d ago` or `just now`, from a Unix time and the current one.
pub fn relative_age(then_secs: i64, now_secs: i64) -> (r: String)
    ensures
        r@ == relative_age_v(then_secs as int, now_secs as int),
{
    let wide: i128 = now_secs as i128 - then_secs as i128;
    if wide < 0 {
        return "in the future".to_owned();
    }
    let d: u64 = if wide > i64::MAX as i128 {
        i64::MAX as u64
    } else {
        wide as u64
    };
    if d < MINUTE as u64 {
        "just now".to_owned()
    } else if d < HOUR as u64 {
        with_unit(d / MINUTE as u64, "m ago")
    } else if d < DAY as u64 {
        with_unit(d / HOUR as u64, "h ago")
    } else if d < WEEK as u64 {
        with_unit(d / DAY as u64, "d ago")
    } else if d < MONTH as u64 {
        with_unit(d / WEEK as u64, "w ago")
    } else if d < YEAR as u64 {
        with_unit(d / MONTH as u64, "mo ago")
    } else {
        with_unit(d / YEAR as u64, "y ago")
    }
}

/// Two to the fifty-third: whole numbers up to it are exact in double precision.
pub const EXACT: u64 = 9_007_199_254_740_992;

/// The quotient of two numbers to the nearest whole one, a half to the nearest even one.
pub open spec fn round_half_even_v(n: int, d: int) -> int {
    let q = n / d;
    let r = n % d;
    if 2 * r > d || (2 * r == d && q % 2 == 1) {
        q + 1
    } else {
        q
    }
}

/// The nearest number that double precision holds, for numbers of up to 64 bits: the multiples of
/// the least power of two under which the quotient has 53 bits.
pub open spec fn to_double_v(n: int, step: int) -> int
    decreases n - step,
    when step > 0
{
    if n < EXACT * step {
        round_half_even_v(n, step) * step
    } else {
        to_double_v(n, step * 2)
    }
}

/// The quotient of two numbers, to the nearest whole one, a half to the nearest even one.
fn round_half_even(n: u128, d: u128) -> (r: u128)
    requires
        0 < d < 0x8000_0000_0000_0000_0000_0000_0000_0000,
        n < 0x8000_0000_0000_0000_0000_0000_0000_0000,
    ensures
        r == round_half_even_v(n as int, d as int),
{
    let q: u128 = n / d;
    let rest: u128 = n % d;
    assert(q <= n) by (nonlinear_arith)
        requires
            q == n / d,
            d > 0,
    ;
    if rest > d - rest || (rest == d - rest && q % 2 == 1) {
        q + 1
    } else {
        q
    }
}

/// The nearest number that double precision holds.
fn to_double(n: u64) -> (r: u128)
    ensures
        r == to_double_v(n as int, 1),
        r <= n + 0x1000,
{
    let mut step: u128 = 1;
    while n as u128 >= EXACT as u128 * step
        invariant
            1 <= step <= 0x1000,
            to_double_v(n as int, 1) == to_double_v(n as int, step as int),
        decreases n - step,
    {
        assert(step < 0x800) by (nonlinear_arith)
            requires
                9_007_199_254_740_992 * step <= n,
                n <= 0xffff_ffff_ffff_ffff,
        ;
        step = step * 2;
    }
    let q: u128 = round_half_even(n as u128, step);
    assert(q * step <= n + step) by (nonlinear_arith)
        requires
            step >= 1,
            q == round_half_even_v(n as int, step as int),
    ;
    q * step
}

/// The unit for a size: how many bytes it is, and its place among the units.
pub open spec fn byte_unit_v(m: int, d: int, u: int) -> (int, int)
    decreases 4 - u,
{
    if u < 4 && m >= d * 1024 {
        byte_unit_v(m, d * 1024, u + 1)
    } else {
        (d, u)
    }
}

/// The names of the units.
pub open spec fn unit_name_v(u: int) -> Seq<char> {
    if u == 0 {
        "B"@
    } else if u == 1 {
        "KB"@
    } else if u == 2 {
        "MB"@
    } else if u == 3 {
        "GB"@
    } else {
        "TB"@
    }
}

/// A size in the largest unit of which it has one, to a tenth. It is first taken to double
/// precision; a tie goes to the even tenth.
pub open spec fn format_bytes_v(n: int) -> Seq<char> {
    if n < 1024 {
        text::decimal_v(n as nat) + " B"@
    } else {
        let m = to_double_v(n, 1);
        let (d, u) = byte_unit_v(m, 1, 0);
        let t = round_half_even_v(m * 10, d);
        text::decimal_v((t / 10) as nat) + "."@ + text::decimal_v((t % 10) as nat) + " "@
            + unit_name_v(u)
    }
}

/// A size for reading, like `1.2 MB` or `840 B`.
pub fn format_bytes(n: u64) -> (r: String)
    ensures
        r@ == format_bytes_v(n as int),
{
    if n < 1024 {
        return with_unit(n, " B");
    }
    let m: u128 = to_double(n);
    let mut d: u128 = 1;
    let mut u: u8 = 0;
    while u < 4 && m >= d * 1024
        invariant
            u <= 4,
            d > 0,
            u == 0 ==> d == 1,
            u == 1 ==> d == 0x400,
            u == 2 ==> d == 0x10_0000,
            u == 3 ==> d == 0x4000_0000,
            u == 4 ==> d == 0x100_0000_0000,
            byte_unit_v(m as int, 1, 0) == byte_unit_v(m as int, d as int, u as int),
        decreases 4 - u,
    {
        d = d * 1024;
        u = u + 1;
    }
    let t: u128 = round_half_even(m * 10, d);
    assert(t <= m * 10 + 1) by (nonlinear_arith)
        requires
            t == round_half_even_v(m * 10, d as int),
            d > 0,
            m >= 0,
    ;
    let whole: u128 = t / 10;
    let tenth: u128 = t % 10;
    assert(whole <= u64::MAX) by {
        if u == 0 {
            assert(m < 1024);
        } else {
            assert(t <= m * 10 / 1024 + 1) by (nonlinear_arith)
                requires
                    t == round_half_even_v(m * 10, d as int),
                    d >= 1024,
                    m >= 0,
            ;
        }
    }
    let mut s = decimal(whole as u64);
    s.append(".");
    let last = decimal(tenth as u64);
    s.append(last.as_str());
    s.append(" ");
    if u == 0 {
        s.append("B");
    } else if u == 1 {
        s.append("KB");
    } else if u == 2 {
        s.append("MB");
    } else if u == 3 {
        s.append("GB");
    } else {
        s.append("TB");
    }
    s
}

/// A bar of `width` cells, the first `filled` of them full.
pub open spec fn bar_v(filled: nat, width: nat, fill: char, empty: char) -> Seq<char> {
    let n = if filled < width {
        filled
    } else {
        width
    };
    text::repeat_v(fill, n) + text::repeat_v(empty, (width - n) as nat)
}

/// A bar of `width` cells of which the first `filled` (at most all) are full.
pub fn bar(filled: usize, width: usize, fill: char, empty: char) -> (r: String)
    ensures
        r@ == bar_v(filled as nat, width as nat, fill, empty),
{
    let n: usize = if filled < width {
        filled
    } else {
        width
    };
    let mut s = repeat(fill, n);
    let rest = repeat(empty, width - n);
    s.append(rest.as_str());
    s
}

/// A text cut to a width from the left: an ellipsis and its longest end that fits beside it.
pub open spec fn truncate_left_v(s: Seq<char>, max_width: int) -> Seq<char> {
    if width::str_width_v(s) <= max_width {
        s
    } else if max_width == 0 {
        Seq::empty()
    } else {
        "…"@ + width::fit_tail_v(s, max_width - 1)
    }
}

/// A text cut to a width from the right: its longest start that fits beside an ellipsis, and that.
pub open spec fn truncate_right_v(s: Seq<char>, max_width: int) -> Seq<char> {
    if width::str_width_v(s) <= max_width {
        s
    } else if max_width == 0 {
        Seq::empty()
    } else {
        width::fit_head_v(s, max_width - 1) + "…"@
    }
}

/// Cuts a text to a display width, keeping its end (a path keeps its file name), with an ellipsis
/// before it where something was cut.
pub fn truncate_left(s: &str, max_width: usize) -> (r: String)
    ensures
        r@ == truncate_left_v(s@, max_width as int),
{
    if str_width(s) <= max_width {
        return s.to_owned();
    }
    if max_width == 0 {
        return String::new();
    }
    let cs = chars_of(s);
    let start: usize = tail_start(&cs, max_width - 1);
    let tail = slice_string(&cs, start, cs.len());
    assert(tail@ =~= cs@.skip(start as int));
    let mut out = "…".to_owned();
    out.append(tail.as_str());
    out
}

/// Cuts a text to a display width, keeping its start, with an ellipsis after it where something was
/// cut.
pub fn truncate_right(s: &str, max_width: usize) -> (r: String)
    ensures
        r@ == truncate_right_v(s@, max_width as int),
{
    if str_width(s) <= max_width {
        return s.to_owned();
    }
    if max_width == 0 {
        return String::new();
    }
    let cs = chars_of(s);
    let end: usize = head_end(&cs, max_width - 1);
    let mut out = slice_string(&cs, 0, end);
    assert(out@ =~= cs@.take(end as int));
    out.append("…");
    out
}

/// A number kept between two bounds.
pub open spec fn clamp_v(x: int, lo: int, hi: int) -> int {
    if x < lo {
        lo
    } else if x > hi {
        hi
    } else {
        x
    }
}

/// `x` moved by `delta` and kept from zero to `max`.
pub fn moved(x: usize, delta: isize, max: usize) -> (r: usize)
    ensures
        r == clamp_v(x + delta, 0, max as int),
{
    let wide: i128 = x as i128 + delta as i128;
    if wide < 0 {
        0
    } else if wide > max as i128 {
        max
    } else {
        wide as usize
    }
}

/// What a cut text keeps is an end (or a start) of the text, and its characters fit in the width
/// that the ellipsis leaves.
pub proof fn law_truncation_fits(s: Seq<char>, max_width: int)
    requires
        max_width > 0,
    ensures
        width::chars_width_v(width::fit_tail_v(s, max_width - 1)) < max_width,
        width::fit_tail_v(s, max_width - 1).is_suffix_of(s),
        width::chars_width_v(width::fit_head_v(s, max_width - 1)) < max_width,
        width::fit_head_v(s, max_width - 1).is_prefix_of(s),
    decreases s.len(),
{
    if s.len() > 0 {
        if width::chars_width_v(s) > max_width - 1 {
            law_truncation_fits(s.drop_first(), max_width);
            law_truncation_fits(s.drop_last(), max_width);
            let t = width::fit_tail_v(s, max_width - 1);
            let h = width::fit_head_v(s, max_width - 1);
            assert(t.is_suffix_of(s.drop_first()));
            assert(s.subrange(s.len() - t.len(), s.len() as int) =~= s.drop_first().subrange(
                s.drop_first().len() - t.len(),
                s.drop_first().len() as int,
            ));
            assert(s.take(h.len() as int) =~= s.drop_last().take(h.len() as int));
        }
    }
}

// ---- Laws of ages, sizes and bars ----

/// An age is told in the largest unit of which one has passed, and in whole ones of it.
pub proof fn law_relative_age(then_secs: int, now_secs: int)
    requires
        i64::MIN <= now_secs - then_secs <= i64::MAX,
    ensures
        ({
            let d = now_secs - then_secs;
            let age = relative_age_v(then_secs, now_secs);
            &&& d < 0 ==> age == "in the future"@
            &&& 0 <= d < 60 ==> age == "just now"@
            &&& 60 <= d < 3600 ==> age == text::decimal_v((d / 60) as nat) + "m ago"@
            &&& 3600 <= d < 86400 ==> age == text::decimal_v((d / 3600) as nat) + "h ago"@
            &&& 86400 <= d < 7 * 86400 ==> age == text::decimal_v((d / 86400) as nat) + "d ago"@
            &&& 7 * 86400 <= d < 30 * 86400 ==> age == text::decimal_v((d / 604800) as nat)
                + "w ago"@
            &&& 30 * 86400 <= d < 365 * 86400 ==> age == text::decimal_v((d / 2592000) as nat)
                + "mo ago"@
            &&& 365 * 86400 <= d ==> age == text::decimal_v((d / 31536000) as nat) + "y ago"@
        }),
        forall|later: int| #[trigger]
            relative_age_v(then_secs + later, now_secs + later) == relative_age_v(
                then_secs,
                now_secs,
            ),
{
}

/// Rounding gives the nearest whole number, and of two as near the even one.
pub proof fn law_round_half_even(n: int, d: int)
    requires
        n >= 0,
        d > 0,
    ensures
        ({
            let q = round_half_even_v(n, d);
            &&& -d <= 2 * (n - q * d) <= d
            &&& 2 * (n - q * d) == d || 2 * (n - q * d) == -d ==> q % 2 == 0
        }),
{
    let q = n / d;
    let r = n % d;
    vstd::arithmetic::div_mod::lemma_fundamental_div_mod(n, d);
    vstd::arithmetic::div_mod::lemma_mod_pos_bound(n, d);
    assert(n == d * q + r);
    assert(q * d == d * q) by (nonlinear_arith);
    assert((q + 1) * d == d * q + d) by (nonlinear_arith);
}

proof fn lemma_byte_unit(m: int, d: int, u: int)
    requires
        0 <= u <= 4,
        d > 0,
        m >= 0,
        u > 0 ==> m >= d,
        d == vstd::arithmetic::power::pow(1024, u as nat),
    ensures
        ({
            let (e, v) = byte_unit_v(m, d, u);
            &&& u <= v <= 4
            &&& e == vstd::arithmetic::power::pow(1024, v as nat)
            &&& e > 0
            &&& v > 0 ==> m >= e
            &&& v < 4 ==> m < e * 1024
        }),
    decreases 4 - u,
{
    if u < 4 && m >= d * 1024 {
        assert(vstd::arithmetic::power::pow(1024, (u + 1) as nat) == 1024
            * vstd::arithmetic::power::pow(1024, u as nat)) by {
            reveal(vstd::arithmetic::power::pow);
        }
        lemma_byte_unit(m, d * 1024, u + 1);
    }
}

/// A size of at least a kilobyte is told in the unit of which there is one, but fewer than 1024,
/// rounded to a tenth; a smaller one in bytes.
pub proof fn law_format_bytes(n: int)
    requires
        0 <= n < 0x20_0000_0000_0000,
    ensures
        n < 1024 ==> format_bytes_v(n) == text::decimal_v(n as nat) + " B"@,
        n >= 1024 ==> exists|t: int, u: nat|
            #![trigger text::decimal_v((t / 10) as nat), vstd::arithmetic::power::pow(1024, u)]
            {
                let d = vstd::arithmetic::power::pow(1024, u);
                &&& 1 <= u <= 4
                &&& d <= n
                &&& u < 4 ==> n < d * 1024
                &&& -d <= 2 * (10 * n - t * d) <= d
                &&& format_bytes_v(n) == text::decimal_v((t / 10) as nat) + "."@ + text::decimal_v(
                    (t % 10) as nat,
                ) + " "@ + (if u == 1 {
                    "KB"@
                } else if u == 2 {
                    "MB"@
                } else if u == 3 {
                    "GB"@
                } else {
                    "TB"@
                })
            },
{
    if n >= 1024 {
        law_round_half_even(n, 1);
        let m = to_double_v(n, 1);
        assert(round_half_even_v(n, 1) == n) by {
            assert(n / 1 == n && n % 1 == 0);
        }
        assert(m == n);
        assert(vstd::arithmetic::power::pow(1024, 0) == 1) by {
            reveal(vstd::arithmetic::power::pow);
        }
        lemma_byte_unit(m, 1, 0);
        let (d, u) = byte_unit_v(m, 1, 0);
        assert(u > 0);
        let t = round_half_even_v(m * 10, d);
        law_round_half_even(m * 10, d);
        let v = u as nat;
        assert(vstd::arithmetic::power::pow(1024, v) == d);
        assert(text::decimal_v((t / 10) as nat) == text::decimal_v((t / 10) as nat));
    }
}

/// A bar has its width: first the filled cells, no more than there are, then the empty ones.
pub proof fn law_bar(filled: nat, width: nat, fill: char, empty: char, i: int)
    requires
        0 <= i < width,
    ensures
        bar_v(filled, width, fill, empty).len() == width,
        bar_v(filled, width, fill, empty)[i] == (if i < filled {
            fill
        } else {
            empty
        }),
{
}

/// A value is clamped to the nearest one of a range.
pub proof fn law_clamp(x: int, lo: int, hi: int)
    requires
        lo <= hi,
    ensures
        lo <= clamp_v(x, lo, hi) <= hi,
        lo <= x <= hi ==> clamp_v(x, lo, hi) == x,
        x < lo ==> clamp_v(x, lo, hi) == lo,
        x > hi ==> clamp_v(x, lo, hi) == hi,
{
}

/// A count is told with its word, which gets an `s` unless it is one.
pub proof fn law_plural(n: nat, word: Seq<char>)
    ensures
        n == 1 ==> plural_v(n, word) == "1 "@ + word,
        n != 1 ==> plural_v(n, word) == text::decimal_v(n) + " "@ + word + "s"@,
{
    if n == 1 {
        reveal_strlit("1 ");
        reveal_strlit(" ");
        assert(text::decimal_v(1) =~= seq!['1']);
        assert("1 "@ =~= text::decimal_v(1) + " "@);
    }
}

proof fn lemma_tail_maximal(s: Seq<char>, budget: int)
    ensures
        ({
            let k = width::fit_tail_v(s, budget).len() as int;
            &&& k <= s.len()
            &&& width::fit_tail_v(s, budget) == s.skip(s.len() - k)
            &&& k < s.len() ==> width::chars_width_v(s.skip(s.len() - k - 1)) > budget
        }),
    decreases s.len(),
{
    if s.len() == 0 || width::chars_width_v(s) <= budget {
        assert(s.skip(0) =~= s);
    } else {
        let a = s.drop_first();
        lemma_tail_maximal(a, budget);
        let k = width::fit_tail_v(s, budget).len() as int;
        assert(a.skip(a.len() - k) =~= s.skip(s.len() - k));
        if k < a.len() {
            assert(a.skip(a.len() - k - 1) =~= s.skip(s.len() - k - 1));
        } else {
            assert(s.skip(0) =~= s);
        }
    }
}

proof fn lemma_head_maximal(s: Seq<char>, budget: int)
    ensures
        ({
            let k = width::fit_head_v(s, budget).len() as int;
            &&& k <= s.len()
            &&& width::fit_head_v(s, budget) == s.take(k)
            &&& k < s.len() ==> width::chars_width_v(s.take(k + 1)) > budget
        }),
    decreases s.len(),
{
    if s.len() == 0 || width::chars_width_v(s) <= budget {
        assert(s.take(s.len() as int) =~= s);
    } else {
        let b = s.drop_last();
        lemma_head_maximal(b, budget);
        let h = width::fit_head_v(s, budget).len() as int;
        assert(b.take(h) =~= s.take(h));
        if h < b.len() {
            assert(b.take(h + 1) =~= s.take(h + 1));
        } else {
            assert(s.take(s.len() as int) =~= s);
        }
    }
}

/// A text that fits stays. One that does not is cut on the left, or on the right, to what leaves a
/// cell for the dots that stand for the rest; and one character more would not fit.
pub proof fn law_truncation(s: Seq<char>, max_width: int)
    requires
        max_width > 0,
    ensures
        width::str_width_v(s) <= max_width ==> truncate_left_v(s, max_width) == s
            && truncate_right_v(s, max_width) == s,
        width::str_width_v(s) > max_width ==> exists|k: int|
            0 <= k <= s.len() && truncate_left_v(s, max_width) == "…"@ + (#[trigger] s.skip(k))
                && width::chars_width_v(s.skip(k)) < max_width && (k > 0 ==> width::chars_width_v(
                s.skip(k - 1),
            ) >= max_width),
        width::str_width_v(s) > max_width ==> exists|k: int|
            0 <= k <= s.len() && truncate_right_v(s, max_width) == (#[trigger] s.take(k)) + "…"@
                && width::chars_width_v(s.take(k)) < max_width && (k < s.len()
                ==> width::chars_width_v(s.take(k + 1)) >= max_width),
{
    law_truncation_fits(s, max_width);
    lemma_tail_maximal(s, max_width - 1);
    lemma_head_maximal(s, max_width - 1);
    let a = s.len() - width::fit_tail_v(s, max_width - 1).len();
    let b = width::fit_head_v(s, max_width - 1).len() as int;
    assert(width::fit_tail_v(s, max_width - 1) == s.skip(a));
    assert(width::fit_head_v(s, max_width - 1) == s.take(b));
}

} // verus!
