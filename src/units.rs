//! Decimal magnitudes and their normalisation to milliseconds.
//!
//! A latency is held as a whole number of ten-thousandths of a millisecond,
//! that is a millisecond value rounded to four decimal places at scale 10,000.
//! Rounding goes half away from zero.
use vstd::prelude::*;
use vstd::arithmetic::div_mod::{
    lemma_basic_div,
    lemma_div_denominator,
    lemma_div_by_multiple,
    lemma_hoist_over_denominator,
};

use crate::text::{all_digits, chars_of, is_digit, lemma_skip_digits, skip_digits, skip_digits_exec};

verus! {

pub open spec fn digit_of(c: char) -> nat {
    (c as int - '0' as int) as nat
}

/// The value of a string of decimal digits, most significant first.
pub open spec fn digits_value(s: Seq<char>) -> nat
    decreases s.len(),
{
    if s.len() == 0 {
        0
    } else {
        digits_value(s.drop_last()) * 10 + digit_of(s.last())
    }
}

pub open spec fn pow10(n: nat) -> nat
    decreases n,
{
    if n == 0 {
        1
    } else {
        10 * pow10((n - 1) as nat)
    }
}

/// `num / den` rounded to the nearest integer, halves rounded up.
pub open spec fn round_div(num: nat, den: nat) -> nat {
    ((2 * num + den) / (2 * den)) as nat
}

/// The millisecond value `num / den` rounded to four decimal places, counted
/// in ten-thousandths.
pub open spec fn round4(num: nat, den: nat) -> nat {
    round_div(num * 10000, den)
}

/// A unit of time that a latency may be written in.
#[derive(Clone, Copy, Debug, PartialEq, Eq, Structural)]
pub enum TimeUnit {
    Micros,
    Millis,
    Secs,
}

/// The unit that a suffix names: `us`, `ms` or `s`.
pub open spec fn unit_of(tag: Seq<char>) -> Option<TimeUnit> {
    if tag == seq!['u', 's'] {
        Some(TimeUnit::Micros)
    } else if tag == seq!['m', 's'] {
        Some(TimeUnit::Millis)
    } else if tag == seq!['s'] {
        Some(TimeUnit::Secs)
    } else {
        None
    }
}

/// The magnitude `int_digits.frac_digits` given in unit `u`, in milliseconds
/// rounded to four decimals (ten-thousandths of a millisecond): a thousandth of
/// it for microseconds, itself for milliseconds, a thousand times it for
/// seconds.
pub open spec fn ms_units(int_digits: Seq<char>, frac_digits: Seq<char>, u: TimeUnit) -> nat {
    let num = digits_value(int_digits + frac_digits);
    let den = pow10(frac_digits.len());
    match u {
        TimeUnit::Micros => round4(num, den * 1000),
        TimeUnit::Millis => round4(num, den),
        TimeUnit::Secs => round4(num * 1000, den),
    }
}

/// `v`, or the largest `u64` where `v` does not fit.
pub open spec fn clamp_u64(v: nat) -> u64 {
    if v <= u64::MAX {
        v as u64
    } else {
        u64::MAX
    }
}

/// A whole magnitude: digits, optionally followed by `.` and more digits.
/// Gives the integer digits and the fraction digits.
pub open spec fn split_magnitude(s: Seq<char>) -> Option<(Seq<char>, Seq<char>)> {
    let a = skip_digits(s, 0);
    if a == 0 {
        None
    } else if a == s.len() {
        Some((s, Seq::empty()))
    } else if s[a] == '.' && a + 1 < s.len() && skip_digits(s, a + 1) == s.len() {
        Some((s.subrange(0, a), s.subrange(a + 1, s.len() as int)))
    } else {
        None
    }
}

pub proof fn lemma_pow10_add(a: nat, b: nat)
    ensures
        pow10(a + b) == pow10(a) * pow10(b),
    decreases a,
{
    if a > 0 {
        let a1 = (a - 1) as nat;
        lemma_pow10_add(a1, b);
        assert(a + b == (a1 + b) + 1);
        assert(pow10(a + b) == 10 * pow10(a1 + b));
        assert(pow10(a) == 10 * pow10(a1));
        let x = pow10(a1);
        let y = pow10(b);
        assert(10 * (x * y) == (10 * x) * y) by (nonlinear_arith);
        assert(pow10(a1 + b) == x * y);
    } else {
        assert(pow10(a) == 1);
        assert(a + b == b);
    }
}

pub proof fn lemma_pow10_pos(n: nat)
    ensures
        pow10(n) >= 1,
    decreases n,
{
    if n > 0 {
        lemma_pow10_pos((n - 1) as nat);
    }
}

pub proof fn lemma_digits_concat(a: Seq<char>, b: Seq<char>)
    ensures
        digits_value(a + b) == digits_value(a) * pow10(b.len()) + digits_value(b),
    decreases b.len(),
{
    if b.len() == 0 {
        assert(a + b =~= a);
        assert(pow10(b.len()) == 1);
        assert(digits_value(b) == 0);
    } else {
        let bl = b.drop_last();
        assert((a + b).drop_last() =~= a + bl);
        assert((a + b).last() == b.last());
        lemma_digits_concat(a, bl);
        let va = digits_value(a);
        let vl = digits_value(bl);
        let p = pow10(bl.len());
        let d = digit_of(b.last());
        assert(pow10(b.len()) == 10 * p);
        assert(digits_value(a + b) == (va * p + vl) * 10 + d);
        assert(digits_value(b) == vl * 10 + d);
        assert((va * p + vl) * 10 + d == va * (10 * p) + (vl * 10 + d)) by (nonlinear_arith);
    }
}

pub proof fn lemma_digits_bound(s: Seq<char>)
    requires
        all_digits(s),
    ensures
        digits_value(s) < pow10(s.len()),
    decreases s.len(),
{
    if s.len() > 0 {
        let t = s.drop_last();
        assert(is_digit(s[s.len() - 1]));
        lemma_digits_bound(t);
        assert(digits_value(t) + 1 <= pow10(t.len()));
        assert(digits_value(t) * 10 + 10 <= pow10(t.len()) * 10) by (nonlinear_arith)
            requires
                digits_value(t) + 1 <= pow10(t.len()),
        ;
    }
}

/// Dividing by a power of ten with rounding keeps the leading digits and adds
/// one where the first digit dropped is five or more.
pub proof fn lemma_round_by_digits(s: Seq<char>, m: nat)
    requires
        all_digits(s),
        1 <= m < s.len(),
    ensures
        round_div(digits_value(s), pow10(m)) == digits_value(s.subrange(0, s.len() - m)) + (
        if digit_of(s[s.len() - m]) >= 5 {
            1int
        } else {
            0int
        }),
{
    let k = s.len() - m;
    let p = s.subrange(0, k);
    let t = s.subrange(k, s.len() as int);
    assert(s =~= p + t);
    lemma_digits_concat(p, t);
    let r = t.subrange(1, t.len() as int);
    assert(t =~= seq![t[0]] + r);
    lemma_digits_concat(seq![t[0]], r);
    assert(seq![t[0]].drop_last() =~= Seq::<char>::empty());
    assert(digits_value(Seq::<char>::empty()) == 0);
    assert(digits_value(seq![t[0]]) == digit_of(t[0]));
    assert(all_digits(r)) by {
        assert forall|i: int| 0 <= i < r.len() implies is_digit(#[trigger] r[i]) by {
            assert(r[i] == s[k + 1 + i]);
        }
    }
    lemma_digits_bound(r);
    assert(is_digit(s[k]));
    let d = digit_of(t[0]) as int;
    assert(d == digit_of(s[k]));
    let q = pow10(r.len()) as int;
    assert(pow10(m) == 10 * q);
    let vp = digits_value(p) as int;
    let vr = digits_value(r) as int;
    let vt = digits_value(t) as int;
    assert(vt == d * q + vr);
    assert(0 <= vr < q);
    assert(0 <= d <= 9);
    let den = 2 * (10 * q);
    let x = 2 * vt + 10 * q;
    assert(2 * (vp * (10 * q) + vt) + 10 * q == x + vp * den) by (nonlinear_arith)
        requires
            den == 2 * (10 * q),
            x == 2 * vt + 10 * q,
    ;
    lemma_hoist_over_denominator(x, vp, den as nat);
    if d >= 5 {
        assert(den <= x < 2 * den) by (nonlinear_arith)
            requires
                x == 2 * (d * q + vr) + 10 * q,
                den == 20 * q,
                5 <= d <= 9,
                0 <= vr < q,
        ;
        lemma_hoist_over_denominator(x - den, 1, den as nat);
        lemma_basic_div(x - den, den);
    } else {
        assert(0 <= x < den) by (nonlinear_arith)
            requires
                x == 2 * (d * q + vr) + 10 * q,
                den == 20 * q,
                0 <= d <= 4,
                0 <= vr < q,
        ;
        lemma_basic_div(x, den);
    }
}

/// Dividing with rounding by a power of ten that the value is a multiple of
/// is exact.
pub proof fn lemma_round_exact(v: nat, m: nat)
    ensures
        round_div(v * pow10(m), pow10(m)) == v,
{
    lemma_pow10_pos(m);
    let p = pow10(m) as int;
    let x = 2 * (v * p) + p;
    assert(x == p + v * (2 * p)) by (nonlinear_arith)
        requires
            x == 2 * (v * p) + p,
    ;
    lemma_hoist_over_denominator(p, v as int, (2 * p) as nat);
    lemma_basic_div(p, 2 * p);
}

/// Scaling numerator and denominator alike leaves the rounded quotient.
pub proof fn lemma_round_cancel(num: nat, den: nat, c: nat)
    requires
        den > 0,
        c > 0,
    ensures
        round_div(num * c, den * c) == round_div(num, den),
{
    let x = (2 * num + den) as int;
    assert(2 * (num * c) + den * c == c * x) by (nonlinear_arith)
        requires
            x == 2 * num + den,
    ;
    assert(2 * (den * c) == c * (2 * den)) by (nonlinear_arith);
    lemma_div_denominator(c * x, c as int, (2 * den) as int);
    assert((c * x) / (c as int) == x) by {
        assert(c * x == x * c) by (nonlinear_arith);
        lemma_div_by_multiple(x, c as int);
    }
}

/// The exponent of ten that turns a value in unit `u` into
/// ten-thousandths of a millisecond.
pub open spec fn unit_exponent(u: TimeUnit) -> nat {
    match u {
        TimeUnit::Micros => 1,
        TimeUnit::Millis => 4,
        TimeUnit::Secs => 7,
    }
}

/// `ms_units` as one rounded division of the digits by a power of ten.
pub proof fn lemma_ms_units_scaled(int_digits: Seq<char>, frac_digits: Seq<char>, u: TimeUnit)
    ensures
        ms_units(int_digits, frac_digits, u) == round_div(
            digits_value(int_digits + frac_digits) * pow10(unit_exponent(u)),
            pow10(frac_digits.len()),
        ),
{
    let num = digits_value(int_digits + frac_digits);
    let den = pow10(frac_digits.len());
    lemma_pow10_pos(frac_digits.len());
    assert(pow10(1) == 10) by {
        assert(pow10(0) == 1);
    }
    lemma_pow10_add(1, 3);
    lemma_pow10_add(3, 1);
    lemma_pow10_add(4, 3);
    assert(pow10(3) == 1000) by {
        lemma_pow10_add(1, 2);
        lemma_pow10_add(1, 1);
    }
    match u {
        TimeUnit::Micros => {
            assert(num * 10000 == (num * 10) * 1000) by (nonlinear_arith);
            lemma_round_cancel(num * 10, den, 1000);
        },
        TimeUnit::Millis => {},
        TimeUnit::Secs => {
            assert((num * 1000) * 10000 == num * 10000000) by (nonlinear_arith);
        },
    }
}

/// The digits at `start..int_end` and then those at `frac_start..end`.
pub open spec fn joined_digits(s: Seq<char>, start: int, int_end: int, frac_start: int, end: int) -> Seq<char> {
    s.subrange(start, int_end) + s.subrange(frac_start, end)
}

proof fn lemma_digits_step(v: Seq<char>, j: int)
    requires
        0 <= j < v.len(),
    ensures
        digits_value(v.take(j + 1)) == digits_value(v.take(j)) * 10 + digit_of(v[j]),
        digits_value(v.take(j + 1)) >= digits_value(v.take(j)),
{
    assert(v.take(j + 1).drop_last() =~= v.take(j));
}

/// The magnitude whose integer digits stand at `start..int_end` of `s` and
/// whose fraction digits stand at `frac_start..end`, in unit `u`, as
/// ten-thousandths of a millisecond; the largest `u64` where it does not fit.
pub fn scaled_magnitude(
    s: &Vec<char>,
    start: usize,
    int_end: usize,
    frac_start: usize,
    end: usize,
    u: TimeUnit,
) -> (r: u64)
    requires
        start < int_end <= frac_start <= end <= s.len(),
        all_digits(s@.subrange(start as int, int_end as int)),
        all_digits(s@.subrange(frac_start as int, end as int)),
    ensures
        r == clamp_u64(
            ms_units(
                s@.subrange(start as int, int_end as int),
                s@.subrange(frac_start as int, end as int),
                u,
            ),
        ),
{
    let k: usize = match u {
        TimeUnit::Micros => 1,
        TimeUnit::Millis => 4,
        TimeUnit::Secs => 7,
    };
    let ni: usize = int_end - start;
    let n: usize = end - frac_start;
    let total: usize = ni + n;
    let keep: usize = if n <= k {
        total
    } else {
        total - (n - k)
    };
    let ghost dg = joined_digits(s@, start as int, int_end as int, frac_start as int, end as int);
    assert(all_digits(dg)) by {
        assert forall|i: int| 0 <= i < dg.len() implies is_digit(#[trigger] dg[i]) by {
            if i < ni {
                assert(dg[i] == s@.subrange(start as int, int_end as int)[i]);
            } else {
                assert(dg[i] == s@.subrange(frac_start as int, end as int)[i - ni]);
            }
        }
    }
    let mut acc: u64 = 0;
    let mut over = false;
    let mut j: usize = 0;
    while j < keep
        invariant
            j <= keep <= total,
            total == dg.len(),
            ni == int_end - start,
            start < int_end <= frac_start <= end <= s.len(),
            dg == joined_digits(s@, start as int, int_end as int, frac_start as int, end as int),
            all_digits(dg),
            !over ==> acc == digits_value(dg.take(j as int)),
            over ==> digits_value(dg.take(j as int)) > u64::MAX,
        decreases keep - j,
    {
        let c = if j < ni {
            s[start + j]
        } else {
            s[frac_start + (j - ni)]
        };
        assert(c == dg[j as int]);
        assert(is_digit(dg[j as int]));
        let d: u64 = (c as u32 - '0' as u32) as u64;
        proof {
            lemma_digits_step(dg, j as int);
        }
        if !over {
            if acc > (u64::MAX - d) / 10 {
                over = true;
            } else {
                acc = acc * 10 + d;
            }
        }
        j = j + 1;
    }
    let ghost num = digits_value(dg);
    proof {
        lemma_ms_units_scaled(s@.subrange(start as int, int_end as int), s@.subrange(frac_start as int, end as int), u);
        lemma_pow10_pos(k as nat);
        lemma_pow10_pos(n as nat);
    }
    if n <= k {
        assert(dg.take(total as int) =~= dg);
        assert(pow10(0) == 1);
        assert(num * pow10(0) == num);
        let mut i: usize = 0;
        while i < k - n
            invariant
                i <= k - n,
                !over ==> acc == num * pow10(i as nat),
                over ==> num * pow10(i as nat) > u64::MAX,
            decreases k - n - i,
        {
            let ghost v = num * pow10(i as nat);
            assert(pow10((i + 1) as nat) == 10 * pow10(i as nat));
            assert(num * pow10((i + 1) as nat) == 10 * v) by (nonlinear_arith)
                requires
                    pow10((i + 1) as nat) == 10 * pow10(i as nat),
                    v == num * pow10(i as nat),
            ;
            if !over {
                if acc > u64::MAX / 10 {
                    over = true;
                } else {
                    acc = acc * 10;
                }
            }
            i = i + 1;
        }
        proof {
            let m = (k - n) as nat;
            lemma_pow10_add(m, n as nat);
            assert(num * pow10(k as nat) == (num * pow10(m)) * pow10(n as nat)) by (nonlinear_arith)
                requires
                    pow10(k as nat) == pow10(m) * pow10(n as nat),
            ;
            lemma_round_exact(num * pow10(m), n as nat);
        }
    } else {
        let c = if keep < ni {
            s[start + keep]
        } else {
            s[frac_start + (keep - ni)]
        };
        assert(c == dg[keep as int]);
        proof {
            let m = (n - k) as nat;
            lemma_pow10_add(m, k as nat);
            assert(pow10(n as nat) == pow10(m) * pow10(k as nat));
            lemma_pow10_pos(m);
            assert(num * pow10(k as nat) * 1 == num * pow10(k as nat));
            lemma_round_cancel(num, pow10(m), pow10(k as nat));
            assert(pow10(m) * pow10(k as nat) == pow10(n as nat));
            lemma_round_by_digits(dg, m);
            assert(dg.subrange(0, dg.len() - m) =~= dg.take(keep as int));
        }
        if c >= '5' && !over {
            if acc == u64::MAX {
                over = true;
            } else {
                acc = acc + 1;
            }
        }
    }
    if over {
        u64::MAX
    } else {
        acc
    }
}

/// What `normalize` gives: the magnitude in the unit, as ten-thousandths of
/// a millisecond; zero where the magnitude is malformed or the unit unknown.
pub open spec fn normalized(magnitude: Seq<char>, unit: Seq<char>) -> u64 {
    match (split_magnitude(magnitude), unit_of(unit)) {
        (Some((i, f)), Some(u)) => clamp_u64(ms_units(i, f, u)),
        _ => 0,
    }
}

/// Converts a magnitude (`814.27`, `8`) written in `us`, `ms` or `s` to
/// milliseconds rounded to four decimals, counted in ten-thousandths of a
/// millisecond. Halves round away from zero. An unknown unit or a malformed
/// magnitude gives zero; a value past the `u64` range gives `u64::MAX`.
pub fn normalize(magnitude: &str, unit: &str) -> (r: u64)
    ensures
        r == normalized(magnitude@, unit@),
{
    let m = chars_of(magnitude);
    let t = chars_of(unit);
    let u = if t.len() == 2 && t[0] == 'u' && t[1] == 's' {
        assert(t@ =~= seq!['u', 's']);
        TimeUnit::Micros
    } else if t.len() == 2 && t[0] == 'm' && t[1] == 's' {
        assert(t@ =~= seq!['m', 's']);
        TimeUnit::Millis
    } else if t.len() == 1 && t[0] == 's' {
        assert(t@ =~= seq!['s']);
        TimeUnit::Secs
    } else {
        assert(unit_of(t@) is None) by {
            if t@ == seq!['u', 's'] || t@ == seq!['m', 's'] {
                assert(t@[0] == t@[0] && t@[1] == seq!['u', 's'][1]);
            }
            if t@ == seq!['s'] {
                assert(t@[0] == seq!['s'][0]);
            }
        }
        return 0;
    };
    let a = skip_digits_exec(&m, 0);
    proof {
        lemma_skip_digits(m@, 0);
    }
    if a == 0 {
        return 0;
    }
    if a == m.len() {
        assert(m@.subrange(0, a as int) =~= m@);
        assert(m@.subrange(a as int, a as int) =~= Seq::<char>::empty());
        assert(m@ + Seq::<char>::empty() =~= m@);
        return scaled_magnitude(&m, 0, a, a, a, u);
    }
    if m[a] == '.' && a + 1 < m.len() {
        let b = skip_digits_exec(&m, a + 1);
        if b == m.len() {
            proof {
                lemma_skip_digits(m@, a + 1);
            }
            return scaled_magnitude(&m, 0, a, a + 1, b, u);
        }
    }
    0
}

/// The rounded quotient lies within half a unit of the exact one: `r` is the
/// integer with `r - 1/2 <= num/den < r + 1/2`.
pub proof fn lemma_round_div_nearest(num: nat, den: nat)
    requires
        den > 0,
    ensures
        2 * den * round_div(num, den) <= 2 * num + den,
        2 * num + den < 2 * den * (round_div(num, den) + 1),
{
    let x = (2 * num + den) as int;
    let d = (2 * den) as int;
    vstd::arithmetic::div_mod::lemma_fundamental_div_mod(x, d);
    let q = x / d;
    assert(0 <= x % d < d) by {
        vstd::arithmetic::div_mod::lemma_mod_bound(x, d);
    }
    assert(q >= 0) by {
        vstd::arithmetic::div_mod::lemma_div_pos_is_pos(x, d);
    }
    assert(d * q == 2 * den * round_div(num, den));
    assert(d * (q + 1) == d * q + d) by (nonlinear_arith);
}

/// Normalising a magnitude `m` gives `m / 1000` milliseconds for `us`, `m`
/// for `ms` and `m * 1000` for `s`, each rounded to four decimal places:
/// the nearest multiple of 1/10,000, halves going up.
pub proof fn law_unit_normalization(m: Seq<char>)
    requires
        split_magnitude(m) is Some,
    ensures
        ({
            let (i, f) = split_magnitude(m)->Some_0;
            let num = digits_value(i + f);
            let den = pow10(f.len());
            &&& normalized(m, "us"@) == clamp_u64(round4(num, den * 1000))
            &&& normalized(m, "ms"@) == clamp_u64(round4(num, den))
            &&& normalized(m, "s"@) == clamp_u64(round4(num * 1000, den))
        }),
        forall|num: nat, den: nat|
            den > 0 ==> 2 * den * #[trigger] round4(num, den) <= 2 * (num * 10000) + den < 2 * den
                * (round4(num, den) + 1),
{
    reveal_strlit("us");
    reveal_strlit("ms");
    reveal_strlit("s");
    assert("us"@ =~= seq!['u', 's']);
    assert("ms"@ =~= seq!['m', 's']);
    assert("s"@ =~= seq!['s']);
    assert forall|num: nat, den: nat|
        den > 0 implies 2 * den * #[trigger] round4(num, den) <= 2 * (num * 10000) + den < 2
        * den * (round4(num, den) + 1) by {
        lemma_round_div_nearest(num * 10000, den);
    }
}

} // verus!
