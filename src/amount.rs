//! Fixed-point amounts: an `i64` counts millionths of a unit.
//!
//! Decimal text (`"1000"`, `"-20.5"`, `"0.00125"`) is read exactly, to six
//! decimal places; further digits are dropped.

use vstd::prelude::*;
use vstd::string::*;

verus! {

/// Millionths in one whole unit: amounts carry six decimal places.
pub const SCALE: i64 = 1_000_000;

/// Whole-unit digits that an amount may have: its magnitude stays below
/// 10^12 units, so that amounts add without overflow.
pub const MAX_WHOLE_DIGITS: usize = 12;

/// Bound (exclusive) on the magnitude of an amount read from text, in
/// millionths.
pub const MAX_UNITS: i64 = 1_000_000_000_000_000_000;

/// Bound (exclusive) on the magnitude of a whole-unit integer amount.
pub const MAX_WHOLE: i64 = 1_000_000_000_000;

pub open spec fn pow10(n: nat) -> int
    decreases n,
{
    if n == 0 { 1 } else { 10 * pow10((n - 1) as nat) }
}

pub open spec fn is_digit(c: char) -> bool {
    '0' <= c <= '9'
}

pub open spec fn all_digits(s: Seq<char>) -> bool {
    forall|i: int| 0 <= i < s.len() ==> is_digit(#[trigger] s[i])
}

/// The number that a string of decimal digits writes.
pub open spec fn digits_value(s: Seq<char>) -> int
    decreases s.len(),
{
    if s.len() == 0 {
        0
    } else {
        digits_value(s.drop_last()) * 10 + (s.last() as int - '0' as int)
    }
}

/// The first six digits after the point, padded with zeros.
pub open spec fn frac_digits(f: Seq<char>) -> Seq<char> {
    if f.len() >= 6 {
        f.take(6)
    } else {
        f + Seq::new((6 - f.len()) as nat, |i: int| '0')
    }
}

/// A string of 1 to 12 digits: the whole part of an amount.
pub open spec fn whole_part_ok(w: Seq<char>) -> bool {
    all_digits(w) && 1 <= w.len() <= MAX_WHOLE_DIGITS
}

/// `w.f` with `w` the whole part: `p` is the position of the point.
pub open spec fn point_at(u: Seq<char>, p: int) -> bool {
    0 <= p < u.len() && u[p] == '.' && all_digits(u.take(p))
}

/// Millionths written by unsigned decimal text: digits, then optionally a
/// point and at least one digit.
pub open spec fn unsigned_units(u: Seq<char>) -> Option<int> {
    if exists|p: int| point_at(u, p) {
        let p = choose|p: int| point_at(u, p);
        let w = u.take(p);
        let f = u.skip(p + 1);
        if whole_part_ok(w) && all_digits(f) && f.len() >= 1 {
            Some(digits_value(w) * SCALE + digits_value(frac_digits(f)))
        } else {
            None
        }
    } else if whole_part_ok(u) {
        Some(digits_value(u) * SCALE)
    } else {
        None
    }
}

/// Millionths written by decimal text with an optional leading `-`.
pub open spec fn decimal_units(s: Seq<char>) -> Option<int> {
    if s.len() > 0 && s[0] == '-' {
        match unsigned_units(s.skip(1)) {
            Some(v) => Some(-v),
            None => None,
        }
    } else {
        unsigned_units(s)
    }
}

/// `x / d` rounded toward zero.
pub open spec fn trunc_div(x: int, d: int) -> int {
    if x >= 0 { x / d } else { -((-x) / d) }
}

/// Product of two fixed-point values, rounded toward zero.
pub open spec fn scaled_mul(a: int, b: int) -> int {
    trunc_div(a * b, SCALE as int)
}

pub proof fn lemma_digits_bound(s: Seq<char>)
    requires
        all_digits(s),
    ensures
        0 <= digits_value(s) < pow10(s.len()),
    decreases s.len(),
{
    if s.len() > 0 {
        let t = s.drop_last();
        assert(all_digits(t)) by {
            assert forall|i: int| 0 <= i < t.len() implies is_digit(#[trigger] t[i]) by {
                assert(t[i] == s[i]);
            }
        }
        lemma_digits_bound(t);
        assert(is_digit(s[s.len() - 1]));
    }
}

proof fn lemma_digits_step(s: Seq<char>, i: int)
    requires
        0 <= i < s.len(),
    ensures
        digits_value(s.take(i + 1)) == digits_value(s.take(i)) * 10 + (s[i] as int - '0' as int),
{
    assert(s.take(i + 1).drop_last() =~= s.take(i));
}

/// The value of the digits `s[from..to]`, which the caller has checked.
fn digits_in(s: &str, from: usize, to: usize) -> (r: i64)
    requires
        from <= to <= s@.len(),
        to - from <= 12,
        all_digits(s@.subrange(from as int, to as int)),
    ensures
        r == digits_value(s@.subrange(from as int, to as int)),
{
    let ghost d = s@.subrange(from as int, to as int);
    proof {
        lemma_digits_bound(d);
        lemma_pow10_12();
    }
    let mut acc: i64 = 0;
    let mut i: usize = from;
    while i < to
        invariant
            from <= i <= to <= s@.len(),
            to - from <= 12,
            d == s@.subrange(from as int, to as int),
            all_digits(d),
            acc == digits_value(d.take(i - from)),
            0 <= acc < pow10((i - from) as nat),
            pow10(12) == 1_000_000_000_000,
        decreases to - i,
    {
        let c = s.get_char(i);
        proof {
            lemma_digits_step(d, (i - from) as int);
            assert(d[(i - from) as int] == c);
            assert(is_digit(d[(i - from) as int]));
            lemma_pow10_mono((i - from + 1) as nat, 12);
            assert(d.take(i - from + 1) =~= d.take(i - from + 1));
            assert(all_digits(d.take(i - from + 1))) by {
                assert forall|k: int| 0 <= k < (i - from + 1) implies is_digit(
                    #[trigger] d.take(i - from + 1)[k],
                ) by {
                    assert(d.take(i - from + 1)[k] == d[k]);
                }
            }
            lemma_digits_bound(d.take(i - from + 1));
        }
        acc = acc * 10 + (c as u32 - '0' as u32) as i64;
        i = i + 1;
    }
    proof {
        assert(d.take(to - from) =~= d);
    }
    acc
}

pub proof fn lemma_pow10_12()
    ensures
        pow10(6) == 1_000_000,
        pow10(12) == 1_000_000_000_000,
{
    reveal_with_fuel(pow10, 13);
}

proof fn lemma_pow10_mono(a: nat, b: nat)
    requires
        a <= b,
    ensures
        1 <= pow10(a) <= pow10(b),
    decreases b,
{
    if a < b {
        lemma_pow10_mono(a, (b - 1) as nat);
    } else if a > 0 {
        lemma_pow10_mono((a - 1) as nat, (a - 1) as nat);
    }
}


/// Millionths written by the six digits after a point at `from - 1`.
fn frac_in(s: &str, from: usize) -> (r: i64)
    requires
        from <= s@.len(),
        all_digits(s@.skip(from as int)),
    ensures
        r == digits_value(frac_digits(s@.skip(from as int))),
        0 <= r < SCALE,
{
    let ghost f = s@.skip(from as int);
    let ghost pd = frac_digits(f);
    let n = s.unicode_len();
    proof {
        lemma_pow10_12();
        assert(pd.len() == 6);
        assert forall|k: int| 0 <= k < 6 implies is_digit(#[trigger] pd[k]) by {
            if k < f.len() {
                assert(pd[k] == f[k]);
            } else {
                assert(pd[k] == '0');
            }
        }
    }
    let mut acc: i64 = 0;
    let mut k: usize = 0;
    while k < 6
        invariant
            0 <= k <= 6,
            n == s@.len(),
            from <= n,
            f == s@.skip(from as int),
            pd == frac_digits(f),
            pd.len() == 6,
            forall|j: int| 0 <= j < 6 ==> is_digit(#[trigger] pd[j]),
            acc == digits_value(pd.take(k as int)),
            0 <= acc < pow10(k as nat),
            pow10(6) == 1_000_000,
        decreases 6 - k,
    {
        let c = if k < n - from {
            s.get_char(from + k)
        } else {
            '0'
        };
        proof {
            assert(pd[k as int] == c);
            lemma_digits_step(pd, k as int);
            assert(all_digits(pd.take(k + 1))) by {
                assert forall|j: int| 0 <= j < k + 1 implies is_digit(
                    #[trigger] pd.take(k + 1)[j],
                ) by {
                    assert(pd.take(k + 1)[j] == pd[j]);
                }
            }
            lemma_digits_bound(pd.take(k + 1));
            lemma_pow10_mono((k + 1) as nat, 6);
        }
        acc = acc * 10 + (c as u32 - '0' as u32) as i64;
        k = k + 1;
    }
    proof {
        assert(pd.take(6) =~= pd);
    }
    acc
}

/// Reads decimal text (an optional `-`, 1 to 12 digits, optionally a point
/// and more digits) into millionths, truncated to six decimal places.
pub fn parse_decimal(s: &str) -> (r: Option<i64>)
    ensures
        match r {
            Some(v) => decimal_units(s@) == Some(v as int) && -MAX_UNITS < v < MAX_UNITS,
            None => decimal_units(s@) is None,
        },
{
    let n = s.unicode_len();
    let neg = n > 0 && s.get_char(0) == '-';
    let start: usize = if neg {
        1
    } else {
        0
    };
    let ghost u = s@.skip(start as int);
    proof {
        if neg {
            assert(s@.skip(1) =~= u);
        } else {
            assert(s@.skip(0) =~= s@);
        }
    }
    let mut i: usize = start;
    while i < n && '0' <= s.get_char(i) && s.get_char(i) <= '9'
        invariant
            start <= i <= n,
            n == s@.len(),
            u == s@.skip(start as int),
            all_digits(s@.subrange(start as int, i as int)),
        decreases n - i,
    {
        proof {
            assert forall|k: int| 0 <= k < i + 1 - start implies is_digit(
                #[trigger] s@.subrange(start as int, i + 1)[k],
            ) by {
                if k < i - start {
                    assert(s@.subrange(start as int, i + 1)[k] == s@.subrange(
                        start as int,
                        i as int,
                    )[k]);
                }
            }
        }
        i = i + 1;
    }
    let ghost w = u.take(i - start);
    proof {
        assert(w =~= s@.subrange(start as int, i as int));
        assert forall|p: int| #![auto] point_at(u, p) implies p == i - start by {
            if p < i - start {
                assert(u[p] == w[p]);
            } else if p > i - start {
                assert(u.take(p)[i - start] == u[i - start]);
            }
        }
    }
    let at_point = i < n && s.get_char(i) == '.';
    if !(i == n || at_point) {
        proof {
            assert(u[i - start] == s@[i as int]);
            assert(!whole_part_ok(u)) by {
                assert(!is_digit(u[i - start]));
            }
            assert(forall|p: int| !point_at(u, p));
        }
        return None;
    }
    if i - start < 1 || i - start > MAX_WHOLE_DIGITS {
        proof {
            if i == n {
                assert(w =~= u);
                assert forall|p: int| !point_at(u, p) by {
                    if 0 <= p < u.len() {
                        assert(is_digit(w[p]));
                    }
                }
            } else {
                assert(point_at(u, i - start));
            }
        }
        return None;
    }
    let whole = digits_in(s, start, i);
    proof {
        lemma_digits_bound(w);
        lemma_pow10_12();
        lemma_pow10_mono((i - start) as nat, 12);
        assert(0 <= whole < 1_000_000_000_000);
        assert(0 <= whole * 1_000_000 <= 999_999_999_999_000_000) by (nonlinear_arith)
            requires
                0 <= whole < 1_000_000_000_000,
        ;
    }
    let value: i64 = if i == n {
        proof {
            assert(w =~= u);
            assert forall|p: int| !point_at(u, p) by {
                if 0 <= p < u.len() {
                    assert(is_digit(w[p]));
                }
            }
            lemma_digits_bound(w);
            lemma_pow10_12();
        }
        whole * SCALE
    } else {
        let mut j: usize = i + 1;
        while j < n && '0' <= s.get_char(j) && s.get_char(j) <= '9'
            invariant
                i + 1 <= j <= n,
                n == s@.len(),
                all_digits(s@.subrange(i + 1, j as int)),
            decreases n - j,
        {
            proof {
                assert forall|k: int| 0 <= k < j + 1 - (i + 1) implies is_digit(
                    #[trigger] s@.subrange(i + 1, j + 1)[k],
                ) by {
                    if k < j - (i + 1) {
                        assert(s@.subrange(i + 1, j + 1)[k] == s@.subrange(i + 1, j as int)[k]);
                    }
                }
            }
            j = j + 1;
        }
        let ghost f = u.skip(i - start + 1);
        proof {
            assert(point_at(u, i - start));
            assert(f =~= s@.skip(i + 1));
        }
        if j != n || j == i + 1 {
            proof {
                if j != n {
                    assert(f[j - (i + 1)] == s@[j as int]);
                    assert(!is_digit(f[j - (i + 1)]));
                }
            }
            return None;
        }
        proof {
            assert(s@.subrange(i + 1, j as int) =~= f);
            lemma_digits_bound(w);
            lemma_pow10_12();
        }
        let frac = frac_in(s, i + 1);
        whole * SCALE + frac
    };
    if neg {
        proof {
            assert(s@.skip(1) =~= u);
        }
        Some(-value)
    } else {
        proof {
            assert(s@.skip(0) =~= s@);
        }
        Some(value)
    }
}

/// An integer number of whole units in millionths, if it has at most
/// twelve digits.
pub fn whole_units(i: i64) -> (r: Option<i64>)
    ensures
        match r {
            Some(v) => -MAX_WHOLE < i < MAX_WHOLE && v == i * SCALE && -MAX_UNITS < v < MAX_UNITS,
            None => !(-MAX_WHOLE < i < MAX_WHOLE),
        },
{
    if -MAX_WHOLE < i && i < MAX_WHOLE {
        assert(-1_000_000_000_000_000_000 < i * 1_000_000 < 1_000_000_000_000_000_000) by (nonlinear_arith)
            requires
                -1_000_000_000_000 < i < 1_000_000_000_000,
        ;
        Some(i * SCALE)
    } else {
        None
    }
}

/// Product of two fixed-point values, rounded toward zero; `None` where the
/// product does not fit.
pub fn mul_scaled(a: i128, b: i128) -> (r: Option<i128>)
    ensures
        match r {
            Some(v) => i128::MIN <= a * b <= i128::MAX && v == scaled_mul(a as int, b as int),
            None => !(i128::MIN <= a * b <= i128::MAX),
        },
{
    match a.checked_mul(b) {
        Some(p) => {
            if p >= 0 {
                Some(p / (SCALE as i128))
            } else if p == i128::MIN {
                proof {
                    assert(-(i128::MIN as int) / 1_000_000 == 170141183460469231731687303715884);
                }
                Some(-170141183460469231731687303715884i128)
            } else {
                Some(-((-p) / (SCALE as i128)))
            }
        }
        None => None,
    }
}

} // verus!
