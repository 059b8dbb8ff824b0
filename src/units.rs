//! Reading numeric literal text: decimals with unit suffixes, durations and
//! times of day.

use vstd::prelude::*;
use crate::ast::Decimal;
use crate::text::{lower_of, eq_exact, fold_lower};

verus! {

/// The most significant digits a numeric literal may carry.
pub const MAX_DIGITS: u32 = 30;

pub open spec fn is_num_char(c: char) -> bool {
    ('0' <= c && c <= '9') || c == '.'
}

pub open spec fn digit_value(c: char) -> int {
    (c as u32) - 48
}

/// Length of the leading run of digits and dots.
pub open spec fn num_prefix_len(s: Seq<char>) -> nat
    decreases s.len(),
{
    if s.len() == 0 || !is_num_char(s[0]) {
        0
    } else {
        1 + num_prefix_len(s.drop_first())
    }
}

pub open spec fn dot_count(s: Seq<char>) -> nat
    decreases s.len(),
{
    if s.len() == 0 {
        0
    } else {
        dot_count(s.drop_last()) + if s.last() == '.' { 1nat } else { 0nat }
    }
}

pub open spec fn digit_count(s: Seq<char>) -> nat
    decreases s.len(),
{
    if s.len() == 0 {
        0
    } else {
        digit_count(s.drop_last()) + if s.last() == '.' { 0nat } else { 1nat }
    }
}

/// The digits of `s`, dots skipped, read as one integer.
pub open spec fn mantissa_of(s: Seq<char>) -> int
    decreases s.len(),
{
    if s.len() == 0 {
        0
    } else if s.last() == '.' {
        mantissa_of(s.drop_last())
    } else {
        mantissa_of(s.drop_last()) * 10 + digit_value(s.last())
    }
}

/// The number of digits after the dot.
pub open spec fn frac_digits(s: Seq<char>) -> nat
    decreases s.len(),
{
    if s.len() == 0 {
        0
    } else if s.last() == '.' {
        frac_digits(s.drop_last())
    } else if dot_count(s.drop_last()) > 0 {
        frac_digits(s.drop_last()) + 1
    } else {
        0
    }
}

/// Text of digits and dots that reads as a decimal: not empty, not a lone
/// dot, at most one dot.
pub open spec fn well_formed_number(s: Seq<char>) -> bool {
    s.len() > 0 && dot_count(s) <= 1 && digit_count(s) >= 1
}

/// The decimal a digits-and-dots text stands for; text that does not read
/// as a number stands for zero.
pub open spec fn decimal_of(s: Seq<char>) -> Decimal {
    if well_formed_number(s) {
        Decimal { mantissa: mantissa_of(s) as i128, scale: frac_digits(s) as u32 }
    } else {
        Decimal { mantissa: 0, scale: 0 }
    }
}

/// Whether a digits-and-dots text is within the digit limit.
pub open spec fn fits_digits(s: Seq<char>) -> bool {
    !well_formed_number(s) || digit_count(s) <= MAX_DIGITS
}

pub open spec fn pow10(n: nat) -> int
    decreases n,
{
    if n == 0 { 1 } else { 10 * pow10((n - 1) as nat) }
}

proof fn lemma_mantissa_bound(s: Seq<char>)
    requires
        forall|i: int| 0 <= i < s.len() ==> is_num_char(#[trigger] s[i]),
    ensures
        0 <= mantissa_of(s) < pow10(digit_count(s)),
    decreases s.len(),
{
    if s.len() > 0 {
        let t = s.drop_last();
        assert forall|i: int| 0 <= i < t.len() implies is_num_char(#[trigger] t[i]) by {
            assert(t[i] == s[i]);
        }
        lemma_mantissa_bound(t);
        assert(is_num_char(s[s.len() - 1]));
    }
}

proof fn lemma_pow10_mono(a: nat, b: nat)
    requires
        a <= b,
    ensures
        1 <= pow10(a) <= pow10(b),
    decreases b,
{
    if a < b {
        lemma_pow10_mono(a, (b - 1) as nat);
    } else {
        lemma_pow10_pos(a);
    }
}

proof fn lemma_pow10_pos(n: nat)
    ensures
        pow10(n) >= 1,
    decreases n,
{
    if n > 0 {
        lemma_pow10_pos((n - 1) as nat);
    }
}

proof fn lemma_frac_le_digits(s: Seq<char>)
    ensures
        frac_digits(s) <= digit_count(s),
    decreases s.len(),
{
    if s.len() > 0 {
        lemma_frac_le_digits(s.drop_last());
    }
}

/// Scans the digits-and-dots text `cs[from..to]`.
fn scan_number(cs: &[char], from: usize, to: usize) -> (r: (i128, u32, u32, u32, bool))
    requires
        from <= to <= cs@.len(),
        forall|i: int| from <= i < to ==> is_num_char(#[trigger] cs@[i]),
    ensures
        ({
            let s = cs@.subrange(from as int, to as int);
            &&& r.2 == if dot_count(s) > 2 { 2 } else { dot_count(s) as int }
            &&& r.3 == if digit_count(s) > MAX_DIGITS { MAX_DIGITS + 1 } else { digit_count(s) as int }
            &&& r.4 == (digit_count(s) > MAX_DIGITS)
            &&& !r.4 ==> r.0 == mantissa_of(s) && r.1 == frac_digits(s)
        }),
{
    let mut mantissa: i128 = 0;
    let mut frac: u32 = 0;
    let mut dots: u32 = 0;
    let mut digits: u32 = 0;
    let mut too_long = false;
    let mut i = from;
    while i < to
        invariant
            from <= i <= to <= cs@.len(),
            forall|k: int| from <= k < to ==> is_num_char(#[trigger] cs@[k]),
            dots as nat == if dot_count(cs@.subrange(from as int, i as int)) > 2 {
                2
            } else {
                dot_count(cs@.subrange(from as int, i as int))
            },
            frac <= 30,
            too_long == (digit_count(cs@.subrange(from as int, i as int)) > MAX_DIGITS),
            digits == if too_long {
                MAX_DIGITS + 1
            } else {
                digit_count(cs@.subrange(from as int, i as int)) as int
            },
            !too_long ==> mantissa == mantissa_of(cs@.subrange(from as int, i as int)),
            !too_long ==> frac == frac_digits(cs@.subrange(from as int, i as int)),
            !too_long ==> 0 <= mantissa < pow10(digit_count(cs@.subrange(from as int, i as int))),
        decreases to - i,
    {
        let ghost s = cs@.subrange(from as int, i as int);
        let ghost s2 = cs@.subrange(from as int, i + 1);
        proof {
            assert(s2.drop_last() =~= s);
            assert(s2.last() == cs@[i as int]);
        }
        let c = cs[i];
        if c == '.' {
            if dots < 2 {
                dots = dots + 1;
            }
        } else if !too_long {
            if digits == MAX_DIGITS {
                too_long = true;
                digits = MAX_DIGITS + 1;
            } else {
                proof {
                    lemma_pow10_mono(digit_count(s), 29);
                    reveal_with_fuel(pow10, 30);
                    assert(pow10(29) == 100000000000000000000000000000int);
                }
                proof {
                    lemma_frac_le_digits(s);
                    assert(pow10(digit_count(s) + 1) == 10 * pow10(digit_count(s)));
                    assert(digit_count(s2) == digit_count(s) + 1);
                    assert(mantissa_of(s2) == mantissa_of(s) * 10 + digit_value(c));
                }
                let d = (c as u32 - 48) as i128;
                mantissa = mantissa * 10 + d;
                if dots > 0 {
                    frac = frac + 1;
                }
                digits = digits + 1;
            }
        }
        i = i + 1;
    }
    (mantissa, frac, dots, digits, too_long)
}


/// Length of the text before the first occurrence of `c` (the whole text
/// when there is none).
pub open spec fn index_of(s: Seq<char>, c: char) -> nat
    decreases s.len(),
{
    if s.len() == 0 || s[0] == c {
        0
    } else {
        1 + index_of(s.drop_first(), c)
    }
}

pub proof fn lemma_num_prefix(s: Seq<char>, i: int)
    requires
        0 <= i <= s.len(),
        forall|j: int| 0 <= j < i ==> is_num_char(#[trigger] s[j]),
        i == s.len() || !is_num_char(s[i]),
    ensures
        num_prefix_len(s) == i,
    decreases i,
{
    if i > 0 {
        let t = s.drop_first();
        assert forall|j: int| 0 <= j < i - 1 implies is_num_char(#[trigger] t[j]) by {
            assert(t[j] == s[j + 1]);
        }
        assert(is_num_char(s[0]));
        lemma_num_prefix(t, i - 1);
    }
}

proof fn lemma_index_of(s: Seq<char>, c: char, i: int)
    requires
        0 <= i <= s.len(),
        forall|j: int| 0 <= j < i ==> #[trigger] s[j] != c,
        i == s.len() || s[i] == c,
    ensures
        index_of(s, c) == i,
    decreases i,
{
    if i > 0 {
        let t = s.drop_first();
        assert forall|j: int| 0 <= j < i - 1 implies #[trigger] t[j] != c by {
            assert(t[j] == s[j + 1]);
        }
        assert(s[0] != c);
        lemma_index_of(t, c, i - 1);
    }
}

/// The end of the leading digits-and-dots run of `cs[from..]`.
pub fn num_prefix_end(cs: &[char], from: usize) -> (r: usize)
    requires
        from <= cs@.len(),
    ensures
        from <= r <= cs@.len(),
        r - from == num_prefix_len(cs@.subrange(from as int, cs@.len() as int)),
        forall|i: int| from <= i < r ==> is_num_char(#[trigger] cs@[i]),
{
    let mut i = from;
    while i < cs.len() && (('0' <= cs[i] && cs[i] <= '9') || cs[i] == '.')
        invariant
            from <= i <= cs@.len(),
            forall|k: int| from <= k < i ==> is_num_char(#[trigger] cs@[k]),
        decreases cs@.len() - i,
    {
        i = i + 1;
    }
    proof {
        let t = cs@.subrange(from as int, cs@.len() as int);
        assert forall|j: int| 0 <= j < i - from implies is_num_char(#[trigger] t[j]) by {
            assert(t[j] == cs@[from + j]);
        }
        lemma_num_prefix(t, i - from);
    }
    i
}

/// The number a numeric literal starts with.
pub open spec fn literal_number(s: Seq<char>) -> Decimal {
    decimal_of(s.take(num_prefix_len(s) as int))
}

/// The unit suffix of a numeric literal.
pub open spec fn literal_unit(s: Seq<char>) -> Seq<char> {
    s.skip(num_prefix_len(s) as int)
}

/// Whether the number a literal starts with is within the digit limit.
pub open spec fn literal_fits(s: Seq<char>) -> bool {
    fits_digits(s.take(num_prefix_len(s) as int))
}

/// Splits a numeric literal into its number and the index where its unit
/// starts; `None` when the number has more digits than `MAX_DIGITS`.
pub fn parse_number_with_unit(cs: &[char]) -> (r: Option<(Decimal, usize)>)
    ensures
        r is None <==> !literal_fits(cs@),
        r matches Some(p) ==> p.0 == literal_number(cs@) && p.1 == num_prefix_len(cs@) && p.1 <= cs@.len(),
{
    let end = num_prefix_end(cs, 0);
    proof {
        assert(cs@.subrange(0, cs@.len() as int) =~= cs@);
        assert(cs@.take(end as int) =~= cs@.subrange(0, end as int));
    }
    let (mantissa, frac, dots, _digits, too_long) = scan_number(cs, 0, end);
    let well_formed = end > 0 && dots <= 1 && (end > 1 || cs[0] != '.');
    proof {
        let p = cs@.subrange(0, end as int);
        if end > 0 && dot_count(p) <= 1 {
            lemma_digits_present(p);
        }
    }
    if !well_formed {
        return Some((Decimal { mantissa: 0, scale: 0 }, end));
    }
    if too_long {
        return None;
    }
    Some((Decimal { mantissa, scale: frac }, end))
}

/// A digits-and-dots text with at most one dot has a digit unless it is a
/// lone dot.
proof fn lemma_digits_present(p: Seq<char>)
    requires
        p.len() > 0,
        dot_count(p) <= 1,
        forall|i: int| 0 <= i < p.len() ==> is_num_char(#[trigger] p[i]),
    ensures
        digit_count(p) >= 1 <==> !(p.len() == 1 && p[0] == '.'),
    decreases p.len(),
{
    let t = p.drop_last();
    if t.len() > 0 {
        assert forall|i: int| 0 <= i < t.len() implies is_num_char(#[trigger] t[i]) by {
            assert(t[i] == p[i]);
        }
        lemma_digits_present(t);
        assert(is_num_char(p[p.len() - 1]));
        if t.len() == 1 && t[0] == '.' {
            assert(t.drop_last().len() == 0);
            assert(dot_count(t) == 1);
        }
    } else {
        assert(p.drop_last().len() == 0);
        assert(digit_count(p.drop_last()) == 0);
    }
}


pub open spec fn saturate(x: int) -> u64 {
    if x > u64::MAX {
        u64::MAX
    } else if x < 0 {
        0
    } else {
        x as u64
    }
}

/// The whole-number part of a digits-and-dots text (zero when it does not
/// read as a number).
pub open spec fn whole_part(p: Seq<char>) -> int {
    if well_formed_number(p) {
        mantissa_of(p.take(index_of(p, '.') as int))
    } else {
        0
    }
}

/// Seconds per unit of a lower-cased duration suffix; unknown suffixes
/// count minutes.
pub open spec fn unit_seconds(u: Seq<char>) -> int {
    if u == "s"@ || u == "sec"@ {
        1
    } else if u == "min"@ || u == "m"@ {
        60
    } else if u == "hour"@ || u == "h"@ {
        3600
    } else if u == "day"@ || u == "d"@ {
        86400
    } else if u == "week"@ || u == "w"@ {
        604800
    } else if u == "month"@ {
        2592000
    } else {
        60
    }
}

/// Seconds denoted by a duration literal such as `30min`: the whole part
/// of its number times its unit, saturating; `today` is one day.
pub open spec fn duration_seconds(s: Seq<char>) -> u64 {
    let u = lower_of(literal_unit(s));
    if u == "today"@ {
        86400
    } else {
        saturate(saturate(whole_part(s.take(num_prefix_len(s) as int))) * unit_seconds(u))
    }
}

fn sat_mul(a: u64, b: u64) -> (r: u64)
    ensures
        r == saturate(a * b),
{
    proof {
        assert((a as int) * (b as int) <= (u64::MAX as int) * (u64::MAX as int)) by (nonlinear_arith)
            requires
                a <= u64::MAX,
                b <= u64::MAX,
        ;
    }
    let p: u128 = a as u128 * b as u128;
    if p > u64::MAX as u128 {
        u64::MAX
    } else {
        p as u64
    }
}

/// Reads the digits of `cs[from..to]`, saturating at the largest u64.
fn whole_digits(cs: &[char], from: usize, to: usize) -> (r: u64)
    requires
        from <= to <= cs@.len(),
        forall|i: int| from <= i < to ==> '0' <= #[trigger] cs@[i] <= '9',
    ensures
        r == saturate(mantissa_of(cs@.subrange(from as int, to as int))),
        mantissa_of(cs@.subrange(from as int, to as int)) >= 0,
{
    let mut v: u64 = 0;
    let mut i = from;
    while i < to
        invariant
            from <= i <= to <= cs@.len(),
            forall|k: int| from <= k < to ==> '0' <= #[trigger] cs@[k] <= '9',
            v == saturate(mantissa_of(cs@.subrange(from as int, i as int))),
            mantissa_of(cs@.subrange(from as int, i as int)) >= 0,
        decreases to - i,
    {
        let ghost s = cs@.subrange(from as int, i as int);
        let ghost s2 = cs@.subrange(from as int, i + 1);
        proof {
            assert(s2.drop_last() =~= s);
            assert(s2.last() == cs@[i as int]);
        }
        let d = (cs[i] as u32 - 48) as u64;
        v = sat_mul(v, 10).saturating_add(d);
        i = i + 1;
    }
    v
}

/// The position of the first `c` in `cs[from..to]`, or `to`.
fn find_char(cs: &[char], from: usize, to: usize, c: char) -> (r: usize)
    requires
        from <= to <= cs@.len(),
    ensures
        from <= r <= to,
        r - from == index_of(cs@.subrange(from as int, to as int), c),
        forall|i: int| from <= i < r ==> #[trigger] cs@[i] != c,
{
    let mut i = from;
    while i < to && cs[i] != c
        invariant
            from <= i <= to <= cs@.len(),
            forall|k: int| from <= k < i ==> #[trigger] cs@[k] != c,
        decreases to - i,
    {
        i = i + 1;
    }
    proof {
        let t = cs@.subrange(from as int, to as int);
        assert forall|j: int| 0 <= j < i - from implies #[trigger] t[j] != c by {
            assert(t[j] == cs@[from + j]);
        }
        lemma_index_of(t, c, i - from);
    }
    i
}

/// Seconds denoted by a duration literal.
pub fn parse_duration(cs: &[char]) -> (r: u64)
    ensures
        r == duration_seconds(cs@),
{
    let end = num_prefix_end(cs, 0);
    let ghost p = cs@.subrange(0, end as int);
    proof {
        assert(cs@.subrange(0, cs@.len() as int) =~= cs@);
        assert(cs@.take(end as int) =~= p);
    }
    let (_m, _f, dots, _d, _t) = scan_number(cs, 0, end);
    let well_formed = end > 0 && dots <= 1 && (end > 1 || cs[0] != '.');
    proof {
        if end > 0 && dot_count(p) <= 1 {
            lemma_digits_present(p);
        }
    }
    let whole: u64 = if well_formed {
        let dot = find_char(cs, 0, end, '.');
        proof {
            assert(p.take(index_of(p, '.') as int) =~= cs@.subrange(0, dot as int));
        }
        whole_digits(cs, 0, dot)
    } else {
        0
    };
    let unit = fold_lower(cs, end, cs.len());
    proof {
        assert(cs@.subrange(end as int, cs@.len() as int) =~= literal_unit(cs@));
    }
    duration_in_unit(whole, &unit)
}

/// Seconds of `whole` units of the lower-cased suffix `unit`, saturating;
/// `today` is one day whatever the number.
pub fn duration_in_unit(whole: u64, unit: &[char]) -> (r: u64)
    ensures
        r == if unit@ == "today"@ {
            86400
        } else {
            saturate(whole * unit_seconds(unit@))
        },
{
    if eq_exact(unit, "today") {
        86400
    } else {
        let mult: u64 = if eq_exact(unit, "s") || eq_exact(unit, "sec") {
            1
        } else if eq_exact(unit, "min") || eq_exact(unit, "m") {
            60
        } else if eq_exact(unit, "hour") || eq_exact(unit, "h") {
            3600
        } else if eq_exact(unit, "day") || eq_exact(unit, "d") {
            86400
        } else if eq_exact(unit, "week") || eq_exact(unit, "w") {
            604800
        } else if eq_exact(unit, "month") {
            2592000
        } else {
            60
        };
        sat_mul(whole, mult)
    }
}

/// A `u8` written in decimal digits; anything else reads as zero.
pub open spec fn u8_text(t: Seq<char>) -> u8 {
    if t.len() > 0 && (forall|i: int| 0 <= i < t.len() ==> '0' <= #[trigger] t[i] <= '9')
        && mantissa_of(t) <= 255 {
        mantissa_of(t) as u8
    } else {
        0
    }
}

/// Hour and minute of a time literal such as `17:30`: the texts before the
/// first colon and between it and the next, each read as a `u8`.
pub open spec fn time_parts(s: Seq<char>) -> (u8, u8) {
    let k = index_of(s, ':');
    let hour = u8_text(s.take(k as int));
    if k < s.len() {
        let rest = s.skip(k + 1 as int);
        (hour, u8_text(rest.take(index_of(rest, ':') as int)))
    } else {
        (hour, 0)
    }
}

fn parse_u8(cs: &[char], from: usize, to: usize) -> (r: u8)
    requires
        from <= to <= cs@.len(),
    ensures
        r == u8_text(cs@.subrange(from as int, to as int)),
{
    let ghost t = cs@.subrange(from as int, to as int);
    let mut i = from;
    while i < to && '0' <= cs[i] && cs[i] <= '9'
        invariant
            from <= i <= to <= cs@.len(),
            forall|k: int| from <= k < i ==> '0' <= #[trigger] cs@[k] <= '9',
        decreases to - i,
    {
        i = i + 1;
    }
    if i < to || from == to {
        proof {
            if i < to {
                assert(!('0' <= t[i - from] <= '9'));
            }
        }
        return 0;
    }
    proof {
        assert forall|k: int| 0 <= k < t.len() implies '0' <= #[trigger] t[k] <= '9' by {
            assert(t[k] == cs@[from + k]);
        }
    }
    let v = whole_digits(cs, from, to);
    if v <= 255 {
        v as u8
    } else {
        0
    }
}

/// Hour and minute of a time literal.
pub fn parse_time(cs: &[char]) -> (r: (u8, u8))
    ensures
        r == time_parts(cs@),
{
    let n = cs.len();
    let k = find_char(cs, 0, n, ':');
    proof {
        assert(cs@.subrange(0, n as int) =~= cs@);
        assert(cs@.take(k as int) =~= cs@.subrange(0, k as int));
    }
    let hour = parse_u8(cs, 0, k);
    if k < n {
        let k2 = find_char(cs, k + 1, n, ':');
        proof {
            let rest = cs@.skip(k + 1);
            assert(rest =~= cs@.subrange(k + 1, n as int));
            assert(rest.take(index_of(rest, ':') as int) =~= cs@.subrange(k + 1, k2 as int));
        }
        let minute = parse_u8(cs, k + 1, k2);
        (hour, minute)
    } else {
        (hour, 0)
    }
}


/// A number literal within the digit limit has a mantissa below 10^30.
pub proof fn lemma_literal_bound(s: Seq<char>)
    requires
        literal_fits(s),
    ensures
        0 <= literal_number(s).mantissa < 1000000000000000000000000000000,
{
    let p = s.take(num_prefix_len(s) as int);
    if well_formed_number(p) {
        lemma_prefix_chars(s);
        lemma_mantissa_bound(p);
        lemma_pow10_mono(digit_count(p), 30);
        reveal_with_fuel(pow10, 31);
        assert(pow10(30) == 1000000000000000000000000000000int);
    }
}

proof fn lemma_prefix_chars(s: Seq<char>)
    ensures
        num_prefix_len(s) <= s.len(),
        forall|i: int| 0 <= i < num_prefix_len(s) ==> is_num_char(#[trigger] s[i]),
    decreases s.len(),
{
    if s.len() > 0 && is_num_char(s[0]) {
        let t = s.drop_first();
        lemma_prefix_chars(t);
        assert forall|i: int| 0 <= i < num_prefix_len(s) implies is_num_char(#[trigger] s[i]) by {
            if i > 0 {
                assert(s[i] == t[i - 1]);
            }
        }
    }
}

} // verus!
