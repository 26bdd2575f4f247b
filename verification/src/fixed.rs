//! Conventions of the fixed-point arithmetic shared by every module.
use vstd::prelude::*;

verus! {

/// Sub-units in one world unit: positions, lengths and speeds are counted in sub-units.
pub const UNIT: i64 = 65536;

/// The fixed-point value of one for the components of a rotation.
pub const ONE: i64 = 1073741824;

/// Microseconds in one second: elapsed time is counted in microseconds.
pub const MICROS_PER_SECOND: i64 = 1000000;

/// Largest magnitude of a coordinate that the geometry accepts.
pub const COORD_MAX: i64 = 1099511627776;

/// The quotient of `n` by a positive `d`, rounded toward zero.
pub open spec fn trunc_div(n: int, d: int) -> int
    recommends
        d > 0,
{
    if n >= 0 {
        n / d
    } else {
        -((-n) / d)
    }
}

/// `v` limited to the interval from `lo` to `hi`.
pub open spec fn clamped(v: int, lo: int, hi: int) -> int
    recommends
        lo <= hi,
{
    if v < lo {
        lo
    } else if v > hi {
        hi
    } else {
        v
    }
}

/// The smaller of two integers.
pub open spec fn min_of(a: int, b: int) -> int {
    if a <= b {
        a
    } else {
        b
    }
}

/// The larger of two integers.
pub open spec fn max_of(a: int, b: int) -> int {
    if a >= b {
        a
    } else {
        b
    }
}

/// The truncated quotient, multiplied back, lies within one divisor of the numerator,
/// on the side of zero.
pub proof fn lemma_trunc_div_bounds(n: int, d: int)
    requires
        d > 0,
    ensures
        n >= 0 ==> n - d < trunc_div(n, d) * d <= n,
        n <= 0 ==> n <= trunc_div(n, d) * d < n + d,
        n >= 0 ==> trunc_div(n, d) >= 0,
        n <= 0 ==> trunc_div(n, d) <= 0,
{
    if n >= 0 {
        assert(n - d < (n / d) * d <= n && n / d >= 0) by (nonlinear_arith)
            requires
                d > 0,
                n >= 0,
        ;
    } else {
        let m = -n;
        assert(m - d < (m / d) * d <= m && m / d >= 0) by (nonlinear_arith)
            requires
                d > 0,
                m >= 0,
        ;
        assert((-(m / d)) * d == -((m / d) * d)) by (nonlinear_arith);
    }
}

/// An exact multiple divides back to its factor.
pub proof fn lemma_trunc_div_multiple(k: int, d: int)
    requires
        d > 0,
    ensures
        trunc_div(k * d, d) == k,
{
    if k >= 0 {
        assert(k * d >= 0 && (k * d) / d == k) by (nonlinear_arith)
            requires
                d > 0,
                k >= 0,
        ;
    } else {
        let m = -k;
        assert(m * d > 0 && (m * d) / d == m) by (nonlinear_arith)
            requires
                d > 0,
                m > 0,
        ;
        assert(-(k * d) == m * d) by (nonlinear_arith)
            requires
                m == -k,
        ;
    }
}

/// A numerator of magnitude at most `b * d` has a quotient of magnitude at most `b`.
pub proof fn lemma_trunc_div_within(n: int, d: int, b: int)
    requires
        d > 0,
        b >= 0,
        -(b * d) <= n <= b * d,
    ensures
        -b <= trunc_div(n, d) <= b,
{
    lemma_trunc_div_bounds(n, d);
    let q = trunc_div(n, d);
    if q > b {
        assert(q * d >= (b + 1) * d) by (nonlinear_arith)
            requires
                q >= b + 1,
                d > 0,
        ;
        assert((b + 1) * d == b * d + d) by (nonlinear_arith);
    }
    if q < -b {
        assert(q * d <= (-b - 1) * d) by (nonlinear_arith)
            requires
                q <= -b - 1,
                d > 0,
        ;
        assert((-b - 1) * d == -(b * d) - d) by (nonlinear_arith);
    }
}

/// The product of two machine integers, widened so that it cannot overflow.
pub fn wide_mul(a: i64, b: i64) -> (p: i128)
    ensures
        p == a * b,
{
    let x: i128 = a as i128;
    let y: i128 = b as i128;
    assert(-0x4000_0000_0000_0000_0000_0000_0000_0000 <= x * y
        <= 0x4000_0000_0000_0000_0000_0000_0000_0000) by (nonlinear_arith)
        requires
            -0x8000_0000_0000_0000 <= x <= 0x8000_0000_0000_0000,
            -0x8000_0000_0000_0000 <= y <= 0x8000_0000_0000_0000,
    ;
    x * y
}

/// `value * num / den`, rounded toward zero, computed without overflow.
pub fn scaled(value: i64, num: i64, den: i64) -> (q: i128)
    requires
        den > 0,
    ensures
        q == trunc_div(value * num, den as int),
{
    let p: i128 = wide_mul(value, num);
    p / (den as i128)
}

/// The smaller of two machine integers.
pub fn lower(a: i64, b: i64) -> (m: i64)
    ensures
        m == min_of(a as int, b as int),
{
    if a <= b {
        a
    } else {
        b
    }
}

/// The larger of two machine integers.
pub fn upper(a: i64, b: i64) -> (m: i64)
    ensures
        m == max_of(a as int, b as int),
{
    if a >= b {
        a
    } else {
        b
    }
}

/// `v` limited to the interval from `lo` to `hi`, narrowed to a machine integer.
pub fn clamp_to(v: i128, lo: i64, hi: i64) -> (c: i64)
    requires
        lo <= hi,
    ensures
        c == clamped(v as int, lo as int, hi as int),
{
    if v < lo as i128 {
        lo
    } else if v > hi as i128 {
        hi
    } else {
        v as i64
    }
}

} // verus!
