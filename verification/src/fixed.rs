//! Signed Q16.16 fixed-point arithmetic.
//!
//! A scalar is an `i64` holding `round(value * 65536)`; multiplication and
//! division truncate toward zero, exactly as a float-to-integer cast does.
//! The spec functions `sdiv`, `rdiv`, `fp_mul_s` and `fp_div_s` give every
//! executable operation in this crate an exact mathematical meaning.

use vstd::prelude::*;
use vstd::math::abs;
use vstd::arithmetic::div_mod::{
    lemma_div_is_ordered, lemma_div_multiples_vanish, lemma_div_nonincreasing,
    lemma_div_pos_is_pos, lemma_fundamental_div_mod_converse, lemma_multiply_divide_lt,
};

verus! {

/// One in Q16.16.
pub const FP_ONE: i64 = 65536;

/// Integer division truncating toward zero (the semantics of Rust's `/` on
/// signed integers and of a float-to-int cast after an exact division).
pub open spec fn sdiv(n: int, d: int) -> int {
    let q = abs(n) as int / abs(d) as int;
    if (n < 0) == (d < 0) {
        q
    } else {
        -q
    }
}

/// Division rounded to the nearest integer, halves away from zero (the
/// semantics of `f32::round` applied to an exact quotient). Meaningful for
/// `d > 0`.
pub open spec fn rdiv(n: int, d: int) -> int {
    if n >= 0 {
        (2 * n + d) / (2 * d)
    } else {
        -((2 * (-n) + d) / (2 * d))
    }
}

/// Q16.16 product: exact integer product rescaled, truncating toward zero.
pub open spec fn fp_mul_s(a: int, b: int) -> int {
    sdiv(a * b, FP_ONE as int)
}

/// Q16.16 quotient: `a / b` in the fixed-point domain, truncating toward zero.
pub open spec fn fp_div_s(a: int, b: int) -> int {
    sdiv(a * FP_ONE, b)
}

/// Dividing an exact multiple is exact: `sdiv(a * d, d) == a` for `d > 0`.
pub proof fn lemma_sdiv_multiple(a: int, d: int)
    requires
        d > 0,
    ensures
        sdiv(a * d, d) == a,
{
    if a >= 0 {
        assert(abs(a * d) == a * d) by (nonlinear_arith)
            requires a >= 0 && d > 0;
        lemma_div_multiples_vanish(a, d);
        assert((d * a) == (a * d)) by (nonlinear_arith);
    } else {
        assert(abs(a * d) == (-a) * d) by (nonlinear_arith)
            requires a < 0 && d > 0;
        lemma_div_multiples_vanish(-a, d);
        assert((d * (-a)) == ((-a) * d)) by (nonlinear_arith);
        assert(a * d < 0) by (nonlinear_arith)
            requires a < 0 && d > 0;
    }
}

/// Multiplying by fixed-point one is exact.
pub proof fn lemma_fp_mul_one(a: int)
    ensures
        fp_mul_s(a, FP_ONE as int) == a,
        fp_mul_s(FP_ONE as int, a) == a,
{
    lemma_sdiv_multiple(a, FP_ONE as int);
    assert(a * (FP_ONE as int) == (FP_ONE as int) * a) by (nonlinear_arith);
}

/// Multiplying by zero gives zero.
pub proof fn lemma_fp_mul_zero(a: int)
    ensures
        fp_mul_s(a, 0) == 0,
        fp_mul_s(0, a) == 0,
{
    assert(a * 0 == 0) by (nonlinear_arith);
    assert(0 * a == 0) by (nonlinear_arith);
}

/// Fixed-point multiplication is commutative.
pub proof fn lemma_fp_mul_comm(a: int, b: int)
    ensures
        fp_mul_s(a, b) == fp_mul_s(b, a),
{
    assert(a * b == b * a) by (nonlinear_arith);
}

/// Negating one factor negates the truncated product exactly.
pub proof fn lemma_fp_mul_neg(a: int, b: int)
    ensures
        fp_mul_s(a, -b) == -fp_mul_s(a, b),
        fp_mul_s(-a, b) == -fp_mul_s(a, b),
{
    assert(a * (-b) == -(a * b)) by (nonlinear_arith);
    assert((-a) * b == -(a * b)) by (nonlinear_arith);
    assert(abs(-(a * b)) == abs(a * b));
    if a * b == 0 {
        assert(abs(a * b) as int / (FP_ONE as int) == 0);
    }
}

/// The magnitude of a truncated quotient: `|sdiv(n, d)| == |n| / |d|`.
pub proof fn lemma_sdiv_abs(n: int, d: int)
    requires
        d != 0,
    ensures
        abs(sdiv(n, d)) == abs(n) as int / abs(d) as int,
        abs(sdiv(n, d)) <= abs(n),
{
    let q = abs(n) as int / abs(d) as int;
    lemma_div_pos_is_pos(abs(n) as int, abs(d) as int);
    lemma_div_nonincreasing(abs(n) as int, abs(d) as int);
}

/// A strict bound through truncating division: if `|n| < c * d` then
/// `|sdiv(n, d)| < c`.
pub proof fn lemma_sdiv_strict_bound(n: int, d: int, c: int)
    requires
        d > 0,
        c > 0,
        abs(n) < c * d,
    ensures
        abs(sdiv(n, d)) < c,
{
    lemma_sdiv_abs(n, d);
    assert((abs(n) as int) < d * c) by (nonlinear_arith)
        requires (abs(n) as int) < c * d;
    lemma_multiply_divide_lt(abs(n) as int, d, c);
}

/// Rounding division of an exact multiple is exact: `rdiv(k * d, d) == k`.
pub proof fn lemma_rdiv_multiple(k: int, d: int)
    requires
        d > 0,
    ensures
        rdiv(k * d, d) == k,
{
    if k >= 0 {
        assert(2 * (k * d) + d == k * (2 * d) + d) by (nonlinear_arith);
        lemma_fundamental_div_mod_converse(2 * (k * d) + d, 2 * d, k, d);
        assert(k * d >= 0) by (nonlinear_arith)
            requires k >= 0 && d > 0;
    } else {
        assert(k * d < 0) by (nonlinear_arith)
            requires k < 0 && d > 0;
        assert(2 * (-(k * d)) + d == (-k) * (2 * d) + d) by (nonlinear_arith);
        lemma_fundamental_div_mod_converse(2 * (-(k * d)) + d, 2 * d, -k, d);
    }
}

/// A value lying between two exact multiples divides to a value between the
/// two factors.
pub proof fn lemma_sdiv_between(n: int, d: int, lo: int, hi: int)
    requires
        d > 0,
        lo * d <= n <= hi * d,
    ensures
        lo <= sdiv(n, d) <= hi,
{
    lemma_sdiv_ordered(lo * d, n, d);
    lemma_sdiv_ordered(n, hi * d, d);
    lemma_sdiv_multiple(lo, d);
    lemma_sdiv_multiple(hi, d);
}

/// Truncating division is monotone in the numerator (positive divisor).
pub proof fn lemma_sdiv_ordered(n1: int, n2: int, d: int)
    requires
        d > 0,
        n1 <= n2,
    ensures
        sdiv(n1, d) <= sdiv(n2, d),
{
    if n1 >= 0 {
        lemma_div_is_ordered(n1, n2, d);
    } else if n2 < 0 {
        lemma_div_is_ordered(-n2, -n1, d);
    } else {
        lemma_div_pos_is_pos(-n1, d);
        lemma_div_pos_is_pos(n2, d);
    }
}

/// Truncating division toward zero, computed on magnitudes.
pub fn trunc_div_i128(n: i128, d: i128) -> (q: i128)
    requires
        d != 0,
        n != i128::MIN,
        d != i128::MIN,
    ensures
        q == sdiv(n as int, d as int),
        abs(q as int) <= abs(n as int),
{
    let nm: u128 = if n < 0 { (-n) as u128 } else { n as u128 };
    let dm: u128 = if d < 0 { (-d) as u128 } else { d as u128 };
    let qm: u128 = nm / dm;
    proof {
        lemma_div_nonincreasing(nm as int, dm as int);
        lemma_div_pos_is_pos(nm as int, dm as int);
    }
    if (n < 0) == (d < 0) {
        qm as i128
    } else {
        -(qm as i128)
    }
}

/// Round-to-nearest division (halves away from zero), for a positive divisor.
pub fn round_div_i128(n: i128, d: i128) -> (q: i128)
    requires
        0 < d < 0x1_0000_0000_0000_0000,
        -0x1000_0000_0000_0000_0000_0000_0000 < n < 0x1000_0000_0000_0000_0000_0000_0000,
    ensures
        q == rdiv(n as int, d as int),
        abs(q as int) <= abs(n as int),
{
    let nm: u128 = if n < 0 { (-n) as u128 } else { n as u128 };
    let dm: u128 = d as u128;
    let qm: u128 = (2 * nm + dm) / (2 * dm);
    proof {
        let nmi = nm as int;
        let dmi = dm as int;
        assert((2 * nmi + dmi) / (2 * dmi) <= nmi) by {
            if nmi == 0 {
                assert(dmi / (2 * dmi) == 0) by (nonlinear_arith)
                    requires dmi > 0;
            } else {
                assert(2 * nmi + dmi < 2 * dmi * (nmi + 1)) by (nonlinear_arith)
                    requires nmi >= 1 && dmi >= 1;
                lemma_sdiv_strict_bound(2 * nmi + dmi, 2 * dmi, nmi + 1);
            }
        }
        lemma_div_pos_is_pos(2 * nmi + dmi, 2 * dmi);
    }
    if n < 0 {
        -(qm as i128)
    } else {
        qm as i128
    }
}

/// Q16.16 multiplication. The wide product always fits an `i128`; the caller
/// shows that the rescaled result fits an `i64`.
pub fn fp_mul(a: i64, b: i64) -> (r: i64)
    requires
        i64::MIN <= fp_mul_s(a as int, b as int) <= i64::MAX,
    ensures
        r == fp_mul_s(a as int, b as int),
{
    proof {
        assert((a as int) * (b as int) <= 0x4000_0000_0000_0000_0000_0000_0000_0000
            && (a as int) * (b as int) >= -0x4000_0000_0000_0000_0000_0000_0000_0000)
            by (nonlinear_arith)
            requires
                -0x8000_0000_0000_0000 <= a as int <= 0x7fff_ffff_ffff_ffff,
                -0x8000_0000_0000_0000 <= b as int <= 0x7fff_ffff_ffff_ffff;
    }
    let p: i128 = (a as i128) * (b as i128);
    let q: i128 = trunc_div_i128(p, 65536);
    q as i64
}

/// Q16.16 division, truncating toward zero. The caller rules out a zero
/// divisor and shows that the quotient fits an `i64`.
pub fn fp_div(a: i64, b: i64) -> (r: i64)
    requires
        b != 0,
        i64::MIN <= fp_div_s(a as int, b as int) <= i64::MAX,
    ensures
        r == fp_div_s(a as int, b as int),
{
    let p: i128 = (a as i128) * 65536;
    let q: i128 = trunc_div_i128(p, b as i128);
    q as i64
}

/// `r` is the integer square root of `n`.
pub open spec fn is_isqrt(r: int, n: int) -> bool {
    0 <= r && r * r <= n && n < (r + 1) * (r + 1)
}

/// The integer square root as a function, for use in contracts.
pub open spec fn isqrt_s(n: int) -> int {
    choose|r: int| is_isqrt(r, n)
}

/// Every nonnegative integer has an integer square root.
pub proof fn lemma_isqrt_exists(n: int)
    requires
        n >= 0,
    ensures
        is_isqrt(isqrt_s(n), n),
    decreases n,
{
    if n == 0 {
        assert(is_isqrt(0, 0));
    } else {
        lemma_isqrt_exists(n - 1);
        let r = isqrt_s(n - 1);
        if (r + 1) * (r + 1) == n {
            assert((r + 2) * (r + 2) > n) by (nonlinear_arith)
                requires r >= 0 && (r + 1) * (r + 1) == n;
            assert(is_isqrt(r + 1, n));
        } else {
            assert(is_isqrt(r, n));
        }
    }
}

/// The integer square root is unique.
pub proof fn lemma_isqrt_unique(r: int, n: int)
    requires
        is_isqrt(r, n),
    ensures
        r == isqrt_s(n),
{
    lemma_isqrt_exists(n);
    let q = isqrt_s(n);
    assert(r == q) by (nonlinear_arith)
        requires
            0 <= r && r * r <= n && n < (r + 1) * (r + 1),
            0 <= q && q * q <= n && n < (q + 1) * (q + 1);
}

/// The square root is monotone: a square below `n` bounds `isqrt_s(n)` from
/// below, and `isqrt_s` never exceeds the root of a larger square.
pub proof fn lemma_isqrt_bounds(n: int, b: int)
    requires
        0 <= n,
        0 <= b,
        n < (b + 1) * (b + 1),
    ensures
        isqrt_s(n) <= b,
{
    lemma_isqrt_exists(n);
    let r = isqrt_s(n);
    assert(r <= b) by (nonlinear_arith)
        requires
            0 <= r && r * r <= n,
            n < (b + 1) * (b + 1),
            0 <= b;
}

/// Integer square root by binary search.
pub fn isqrt_u128(n: u128) -> (r: u128)
    ensures
        is_isqrt(r as int, n as int),
        r as int == isqrt_s(n as int),
{
    if n == 0 {
        proof {
            lemma_isqrt_unique(0, 0);
        }
        return 0;
    }
    let mut lo: u128 = 0;
    let mut hi: u128 = 0x1_0000_0000_0000_0000;
    while hi - lo > 1
        invariant
            lo < hi <= 0x1_0000_0000_0000_0000,
            (lo as int) * (lo as int) <= n as int,
            (n as int) < (hi as int) * (hi as int),
        decreases hi - lo,
    {
        let mid: u128 = lo + (hi - lo) / 2;
        proof {
            assert(mid < hi);
            assert((mid as int) * (mid as int) <= 0xffff_ffff_ffff_ffff * 0xffff_ffff_ffff_ffff)
                by (nonlinear_arith)
                requires 0 <= mid as int <= 0xffff_ffff_ffff_ffff;
        }
        if mid * mid <= n {
            lo = mid;
        } else {
            hi = mid;
        }
    }
    proof {
        lemma_isqrt_unique(lo as int, n as int);
    }
    lo
}

} // verus!

verus! {

/// Truncating division leaves a remainder smaller than the divisor:
/// `|d * sdiv(n, d) - n| < d`.
pub proof fn lemma_sdiv_err(n: int, d: int)
    requires
        d > 0,
    ensures
        abs(d * sdiv(n, d) - n) < d,
{
    let q = abs(n) as int / d;
    vstd::arithmetic::div_mod::lemma_fundamental_div_mod(abs(n) as int, d);
    assert(abs(n) as int == d * q + (abs(n) as int % d));
    if n >= 0 {
        assert(d * sdiv(n, d) - n == -(abs(n) as int % d));
    } else {
        assert(d * (-q) - n == abs(n) as int % d) by (nonlinear_arith)
            requires abs(n) as int == d * q + (abs(n) as int % d) && n == -(abs(n) as int);
    }
}

} // verus!
