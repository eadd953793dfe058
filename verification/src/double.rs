//! Quotients of double-precision numbers given by their bits.
//!
//! A finite number is a whole significand below `2^53` times a power of two. The
//! quotient of two of them is rounded to the nearest such number, to the even
//! one of two that are equally near.

use vstd::arithmetic::power2::{
    lemma2_to64, lemma2_to64_rest, lemma_pow2_pos, lemma_pow2_strictly_increases, lemma_pow2_unfold, pow2,
};
use vstd::prelude::*;

verus! {

/// `2^52`, the least significand of a normal number.
pub const LEAD: u64 = 0x10_0000_0000_0000;

/// The exponent field.
pub open spec fn field(bits: u64) -> int {
    (bits as int / LEAD as int) % 2048
}

/// The fraction field.
pub open spec fn fraction(bits: u64) -> int {
    bits as int % LEAD as int
}

pub open spec fn is_negative(bits: u64) -> bool {
    bits >= 0x8000_0000_0000_0000
}

pub open spec fn is_nan(bits: u64) -> bool {
    field(bits) == 2047 && fraction(bits) != 0
}

pub open spec fn is_infinite(bits: u64) -> bool {
    field(bits) == 2047 && fraction(bits) == 0
}

/// The absolute value of a finite number: its significand and the exponent of
/// the power of two.
pub open spec fn magnitude(bits: u64) -> (int, int) {
    if field(bits) == 0 {
        (fraction(bits), -1074)
    } else {
        (fraction(bits) + LEAD, field(bits) - 1075)
    }
}

/// `num / den` rounded to the nearest whole number, to the even one of two.
pub open spec fn nearest(num: int, den: int) -> int {
    let q = num / den;
    let r = num % den;
    if 2 * r < den || (2 * r == den && q % 2 == 0) {
        q
    } else {
        q + 1
    }
}

/// Rounding moves a quotient by at most one half, and by one half only to an
/// even number.
pub proof fn nearest_is_near(num: int, den: int)
    requires
        0 <= num,
        0 < den,
    ensures
        -den <= 2 * (num - nearest(num, den) * den) <= den,
        2 * (num - nearest(num, den) * den) == den ==> nearest(num, den) % 2 == 0,
        2 * (num - nearest(num, den) * den) == -den ==> nearest(num, den) % 2 == 0,
{
    vstd::arithmetic::div_mod::lemma_fundamental_div_mod(num, den);
    let q = num / den;
    assert((q + 1) * den == q * den + den) by (nonlinear_arith);
    assert(den * q == q * den) by (nonlinear_arith);
}

/// The same number with its leading bit at `2^52`.
pub open spec fn normal(sig: int, exp: int) -> (int, int)
    decreases
            if sig < LEAD {
                LEAD - sig
            } else {
                0
            },
{
    if sig <= 0 {
        (sig, exp)
    } else if sig < LEAD {
        normal(2 * sig, exp - 1)
    } else if sig == 2 * LEAD {
        (LEAD as int, exp + 1)
    } else {
        (sig, exp)
    }
}

/// The rounded quotient of two positive numbers; it is not finer than `2^-1074`.
pub open spec fn quotient(a: (int, int), b: (int, int)) -> (int, int) {
    let (m, p) = normal(a.0, a.1);
    let (n, q) = normal(b.0, b.1);
    let shift: int = if m >= n {
        52
    } else {
        53
    };
    let e = p - q - shift;
    let low = if e < -1074 {
        -1074 - e
    } else {
        0
    };
    (nearest(m * pow2(shift as nat), n * pow2(low as nat)), e + low)
}

/// How many times `n` is to be halved to fall below `2^53`.
pub open spec fn excess(n: int) -> int
    decreases n,
{
    if n < 2 * LEAD {
        0
    } else {
        1 + excess(n / 2)
    }
}

/// A whole number rounded to double precision.
pub open spec fn whole(n: int) -> (int, int) {
    (nearest(n, pow2(excess(n) as nat) as int), excess(n))
}

/// The whole part of a number, or the largest machine integer below it.
pub open spec fn floor(m: (int, int)) -> int {
    let v = if m.1 >= 0 {
        m.0 * pow2(m.1 as nat)
    } else {
        m.0 / pow2((-m.1) as nat) as int
    };
    if v > usize::MAX {
        usize::MAX as int
    } else {
        v
    }
}

/// The whole part of `(s / n) / f` for two numbers given by their bits and a
/// whole number: zero where this is negative or not a number, and the largest
/// machine integer where it is larger.
pub open spec fn whole_ratio(s: u64, n: int, f: u64) -> int {
    let ms = magnitude(s);
    let mf = magnitude(f);
    if is_nan(s) || is_nan(f) || is_negative(s) != is_negative(f) || is_infinite(f) {
        0
    } else if is_infinite(s) {
        usize::MAX as int
    } else if ms.0 == 0 {
        0
    } else if n == 0 {
        usize::MAX as int
    } else {
        let x = quotient(ms, whole(n));
        if x.0 == 0 {
            0
        } else if mf.0 == 0 {
            usize::MAX as int
        } else {
            floor(quotient(x, mf))
        }
    }
}

fn split(bits: u64) -> (r: (u64, i64))
    ensures
        (r.0 as int, r.1 as int) == magnitude(bits),
        r.0 < 2 * LEAD,
        -1074 <= r.1 <= 972,
{
    let fraction: u64 = bits % LEAD;
    let field: u64 = (bits / LEAD) % 2048;
    if field == 0 {
        (fraction, -1074)
    } else {
        (fraction + LEAD, field as i64 - 1075)
    }
}

fn round(num: u128, den: u128) -> (r: u128)
    requires
        0 < den,
        num < u128::MAX,
    ensures
        r == nearest(num as int, den as int),
        r <= num / den + 1,
{
    let q: u128 = num / den;
    let r: u128 = num % den;
    let left: u128 = den - r;
    assert(q <= num) by (nonlinear_arith)
        requires
            q == num / den,
            den > 0,
            num >= 0,
    ;
    if r < left || (r == left && q % 2 == 0) {
        q
    } else {
        q + 1
    }
}

fn normalise(sig: u64, exp: i64) -> (r: (u64, i64))
    requires
        0 < sig <= 2 * LEAD,
        -100_000 <= exp <= 100_000,
    ensures
        (r.0 as int, r.1 as int) == normal(sig as int, exp as int),
        LEAD <= r.0 < 2 * LEAD,
        exp - 53 <= r.1 <= exp + 1,
{
    if sig == 2 * LEAD {
        return (LEAD, exp + 1);
    }
    let mut m: u64 = sig;
    let mut e: i64 = exp;
    let mut left: u64 = 53;
    proof {
        lemma2_to64();
        lemma2_to64_rest();
        assert(m * pow2(left as nat) >= LEAD) by (nonlinear_arith)
            requires
                m >= 1,
                pow2(left as nat) >= LEAD,
        ;
    }
    while m < LEAD
        invariant
            0 < m < 2 * LEAD,
            left <= 53,
            m * pow2(left as nat) >= LEAD,
            e == exp - 53 + left,
            -100_000 <= exp <= 100_000,
            normal(m as int, e as int) == normal(sig as int, exp as int),
        decreases left,
    {
        proof {
            lemma2_to64();
            lemma2_to64_rest();
            if left == 0 {
                assert(m * 1 == m);
            }
            lemma_pow2_unfold(left as nat);
            assert((2 * m) * pow2((left - 1) as nat) == m * (2 * pow2((left - 1) as nat))) by (nonlinear_arith);
        }
        m = 2 * m;
        e = e - 1;
        left = left - 1;
    }
    (m, e)
}

fn power(n: u64) -> (r: u128)
    requires
        n <= 64,
    ensures
        r == pow2(n as nat),
        r <= 0x1_0000_0000_0000_0000,
{
    let mut v: u128 = 1;
    let mut i: u64 = 0;
    proof {
        lemma2_to64();
        lemma2_to64_rest();
    }
    while i < n
        invariant
            i <= n <= 64,
            v == pow2(i as nat),
            v <= 0x1_0000_0000_0000_0000,
        decreases n - i,
    {
        proof {
            lemma2_to64();
            lemma2_to64_rest();
            lemma_pow2_unfold((i + 1) as nat);
            if i < 63 {
                lemma_pow2_strictly_increases((i + 1) as nat, 64);
            }
        }
        v = 2 * v;
        i = i + 1;
    }
    v
}

fn divide(a: (u64, i64), b: (u64, i64)) -> (r: (u64, i64))
    requires
        0 < a.0 <= 2 * LEAD,
        0 < b.0 <= 2 * LEAD,
        -20_000 <= a.1 <= 20_000,
        -20_000 <= b.1 <= 20_000,
    ensures
        (r.0 as int, r.1 as int) == quotient((a.0 as int, a.1 as int), (b.0 as int, b.1 as int)),
        r.0 <= 2 * LEAD,
        a.1 - b.1 - 200 <= r.1,
        r.1 <= a.1 - b.1 + 200 || r.1 == -1074,
{
    let (m, p) = normalise(a.0, a.1);
    let (n, q) = normalise(b.0, b.1);
    let shift: u64 = if m >= n { 52 } else { 53 };
    let e: i64 = p - q - shift as i64;
    let low: i64 = if e < -1074 { -1074 - e } else { 0 };
    proof {
        lemma2_to64();
        lemma2_to64_rest();
        let s = pow2(shift as nat);
        assert(m * s < 0x400_0000_0000_0000_0000_0000_0000) by (nonlinear_arith)
            requires
                m < 0x20_0000_0000_0000,
                s <= 0x20_0000_0000_0000,
                m >= 0,
                s >= 0,
        ;
        assert(m * s < 2 * (LEAD * n)) by (nonlinear_arith)
            requires
                (m >= n && s == LEAD && m < 2 * LEAD && n >= LEAD) || (m < n && s == 2 * LEAD),
                m >= 0,
        ;
    }
    let num: u128 = m as u128 * power(shift);
    if low > 60 {
        proof {
            let d = pow2(low as nat);
            if low > 60 {
                lemma_pow2_strictly_increases(60, low as nat);
            }
            assert(n * d > 2 * num) by (nonlinear_arith)
                requires
                    num < 2 * (LEAD * n),
                    d > 0x1000_0000_0000_0000,
                    n >= LEAD,
                    LEAD == 0x10_0000_0000_0000,
            ;
            vstd::arithmetic::div_mod::lemma_fundamental_div_mod_converse(num as int, n * d, 0, num as int);
        }
        return (0, e + low);
    }
    let d: u128 = power(low as u64);
    proof {
        if low < 60 {
            lemma_pow2_strictly_increases(low as nat, 60);
        }
        assert(1 <= d) by {
            lemma_pow2_pos(low as nat);
        }
        assert(n <= n * d <= n * 0x1000_0000_0000_0000) by (nonlinear_arith)
            requires
                1 <= d <= 0x1000_0000_0000_0000,
                n >= 0,
        ;
        assert(n * d > 0);
        assert(num as int / (n * d) < 2 * LEAD) by (nonlinear_arith)
            requires
                num < 2 * (LEAD * n),
                n <= n * d,
                n > 0,
        ;
    }
    let sig: u128 = round(num, n as u128 * d);
    (sig as u64, e + low)
}

fn halvings(n: usize) -> (r: u64)
    ensures
        r == excess(n as int),
        r <= 11,
        n < 0x20_0000_0000_0000 * pow2(r as nat),
{
    let mut v: usize = n;
    let mut k: u64 = 0;
    let mut left: u64 = 11;
    proof {
        lemma2_to64();
        lemma2_to64_rest();
        assert(n <= 0xFFFF_FFFF_FFFF_FFFF);
    }
    while v as u64 >= 0x20_0000_0000_0000
        invariant
            k + left == 11,
            v < 0x20_0000_0000_0000 * pow2(left as nat),
            excess(n as int) == k + excess(v as int),
            v as int == n as int / pow2(k as nat) as int,
        decreases left,
    {
        proof {
            lemma2_to64();
            lemma2_to64_rest();
            if left == 0 {
                assert(false);
            }
            lemma_pow2_unfold(left as nat);
            lemma_pow2_unfold((k + 1) as nat);
            lemma_pow2_pos(k as nat);
            vstd::arithmetic::div_mod::lemma_div_denominator(n as int, pow2(k as nat) as int, 2);
            assert(pow2(k as nat) * 2 == pow2((k + 1) as nat));
            assert(0x20_0000_0000_0000 * (2 * pow2((left - 1) as nat)) == 2 * (0x20_0000_0000_0000 * pow2(
                (left - 1) as nat,
            )));
        }
        v = v / 2;
        k = k + 1;
        left = left - 1;
    }
    proof {
        lemma_pow2_pos(k as nat);
        let d = pow2(k as nat) as int;
        vstd::arithmetic::div_mod::lemma_fundamental_div_mod(n as int, d);
        assert(n < 0x20_0000_0000_0000 * d) by (nonlinear_arith)
            requires
                n as int == d * (n as int / d) + n as int % d,
                0 <= n as int % d < d,
                n as int / d <= 0x20_0000_0000_0000 - 1,
                d > 0,
        ;
    }
    k
}

fn widen(n: usize) -> (r: (u64, i64))
    requires
        n > 0,
    ensures
        (r.0 as int, r.1 as int) == whole(n as int),
        0 < r.0 <= 2 * LEAD,
        0 <= r.1 <= 11,
{
    let k: u64 = halvings(n);
    let d: u128 = power(k);
    proof {
        lemma_pow2_pos(k as nat);
        assert(n as int / d as int <= 0x20_0000_0000_0000 - 1) by (nonlinear_arith)
            requires
                n < 0x20_0000_0000_0000 * d,
                d > 0,
                n >= 0,
        ;
        nearest_is_near(n as int, d as int);
        excess_is_tight(n as int);
        if nearest(n as int, d as int) <= 0 {
            assert(nearest(n as int, d as int) * d <= 0) by (nonlinear_arith)
                requires
                    nearest(n as int, d as int) <= 0,
                    d > 0,
            ;
        }
    }
    let sig: u128 = round(n as u128, d);
    (sig as u64, k as i64)
}

/// Halving never goes below `2^52`.
proof fn excess_is_tight(n: int)
    requires
        0 < n,
    ensures
        excess(n) >= 0,
        n >= pow2(excess(n) as nat),
    decreases n,
{
    lemma2_to64();
    lemma2_to64_rest();
    if n >= 2 * LEAD {
        excess_is_tight(n / 2);
        lemma_pow2_unfold((1 + excess(n / 2)) as nat);
    }
}

fn truncate(m: (u64, i64)) -> (r: usize)
    requires
        m.0 <= 2 * LEAD,
        -100_000 <= m.1 <= 100_000,
    ensures
        r == floor((m.0 as int, m.1 as int)),
{
    proof {
        lemma2_to64();
        lemma2_to64_rest();
    }
    if m.0 == 0 {
        proof {
            if m.1 >= 0 {
                assert(0 * pow2(m.1 as nat) == 0) by (nonlinear_arith);
            } else {
                lemma_pow2_pos((-m.1) as nat);
                vstd::arithmetic::div_mod::lemma_fundamental_div_mod_converse(
                    0,
                    pow2((-m.1) as nat) as int,
                    0,
                    0,
                );
            }
        }
        return 0;
    }
    if m.1 >= 64 {
        proof {
            if m.1 > 64 {
                lemma_pow2_strictly_increases(64, m.1 as nat);
            }
            let d = pow2(m.1 as nat);
            assert(m.0 * d >= d) by (nonlinear_arith)
                requires
                    m.0 >= 1,
            ;
        }
        return usize::MAX;
    }
    if m.1 <= -64 {
        proof {
            if m.1 < -64 {
                lemma_pow2_strictly_increases(64, (-m.1) as nat);
            }
            vstd::arithmetic::div_mod::lemma_fundamental_div_mod_converse(
                m.0 as int,
                pow2((-m.1) as nat) as int,
                0,
                m.0 as int,
            );
        }
        return 0;
    }
    if m.1 >= 0 {
        let d: u128 = power(m.1 as u64);
        assert(m.0 * d <= 0x20_0000_0000_0000 * 0x1_0000_0000_0000_0000) by (nonlinear_arith)
            requires
                m.0 <= 0x20_0000_0000_0000,
                d <= 0x1_0000_0000_0000_0000,
        ;
        let v: u128 = m.0 as u128 * d;
        if v > usize::MAX as u128 {
            usize::MAX
        } else {
            v as usize
        }
    } else {
        let d: u128 = power((-m.1) as u64);
        proof {
            lemma_pow2_pos((-m.1) as nat);
            assert(m.0 as int / d as int <= m.0) by (nonlinear_arith)
                requires
                    d >= 1,
                    m.0 >= 0,
            ;
        }
        let v: u128 = m.0 as u128 / d;
        if v > usize::MAX as u128 {
            usize::MAX
        } else {
            v as usize
        }
    }
}

/// The whole part of `(s / n) / f`, with each quotient rounded to double
/// precision.
pub fn truncated_ratio(s: u64, n: usize, f: u64) -> (r: usize)
    ensures
        r == whole_ratio(s, n as int, f),
{
    let s_field: u64 = (s / LEAD) % 2048;
    let f_field: u64 = (f / LEAD) % 2048;
    let s_negative: bool = s >= 0x8000_0000_0000_0000;
    let f_negative: bool = f >= 0x8000_0000_0000_0000;
    if s_field == 2047 && s % LEAD != 0 || f_field == 2047 || s_negative != f_negative {
        return 0;
    }
    if s_field == 2047 {
        return usize::MAX;
    }
    let ms = split(s);
    let mf = split(f);
    if ms.0 == 0 {
        return 0;
    }
    if n == 0 {
        return usize::MAX;
    }
    let x = divide(ms, widen(n));
    if x.0 == 0 {
        return 0;
    }
    if mf.0 == 0 {
        return usize::MAX;
    }
    truncate(divide(x, mf))
}

} // verus!
