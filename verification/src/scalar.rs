//! Fixed-point scalars: thousandths held in an `i32`.

use vstd::prelude::*;

verus! {

/// How many steps of the representation make one world unit.
pub const UNIT: i32 = 1000;

/// The value of a mathematical integer once it is stored in an `i32`:
/// anything beyond the ends of the range stops at the nearest end.
pub open spec fn saturate(v: int) -> int {
    if v < i32::MIN as int {
        i32::MIN as int
    } else if v > i32::MAX as int {
        i32::MAX as int
    } else {
        v
    }
}

/// The absolute value of an integer.
pub open spec fn magnitude(v: int) -> int {
    if v < 0 {
        -v
    } else {
        v
    }
}

/// Division that rounds toward zero, for a positive divisor.
pub open spec fn trunc_div(n: int, d: int) -> int
    recommends
        d > 0,
{
    if n >= 0 {
        n / d
    } else {
        -((-n) / d)
    }
}

/// `v` moved into the interval from `lo` to `hi`.
pub open spec fn clamp_between(v: int, lo: int, hi: int) -> int
    recommends
        lo <= hi,
{
    if v < lo {
        lo
    } else if v > hi {
        hi
    } else {
        v
    }
}

/// Whether `r` is the integer part of the square root of `n`.
pub open spec fn is_floor_sqrt(n: int, r: int) -> bool {
    0 <= r && r * r <= n && n < (r + 1) * (r + 1)
}

/// The integer part of the square root of a non-negative integer.
pub open spec fn floor_sqrt(n: int) -> int
    recommends
        n >= 0,
{
    choose|r: int| is_floor_sqrt(n, r)
}

/// A number has at most one integer square root.
pub proof fn lemma_floor_sqrt_unique(n: int, a: int, b: int)
    requires
        is_floor_sqrt(n, a),
        is_floor_sqrt(n, b),
    ensures
        a == b,
{
    if a < b {
        assert((a + 1) * (a + 1) <= b * b) by (nonlinear_arith)
            requires
                0 <= a,
                a + 1 <= b,
        ;
    } else if b < a {
        assert((b + 1) * (b + 1) <= a * a) by (nonlinear_arith)
            requires
                0 <= b,
                b + 1 <= a,
        ;
    }
}

/// Whoever holds an integer square root of `n` holds `floor_sqrt(n)`.
pub proof fn lemma_floor_sqrt_is(n: int, r: int)
    requires
        is_floor_sqrt(n, r),
    ensures
        floor_sqrt(n) == r,
{
    lemma_floor_sqrt_unique(n, floor_sqrt(n), r);
}

/// Every non-negative integer has an integer square root.
pub proof fn lemma_floor_sqrt_exists(n: int)
    requires
        n >= 0,
    ensures
        is_floor_sqrt(n, floor_sqrt(n)),
    decreases n,
{
    if n == 0 {
        assert(is_floor_sqrt(0, 0));
    } else {
        lemma_floor_sqrt_exists(n - 1);
        let r = floor_sqrt(n - 1);
        if n < (r + 1) * (r + 1) {
            assert(is_floor_sqrt(n, r));
        } else {
            assert((r + 2) * (r + 2) > (r + 1) * (r + 1)) by (nonlinear_arith)
                requires
                    r >= 0,
            ;
            assert(is_floor_sqrt(n, r + 1));
        }
    }
}

/// Stores a 64-bit intermediate result in an `i32`, stopping at the ends
/// of the range.
pub fn narrow(v: i64) -> (r: i32)
    ensures
        r as int == saturate(v as int),
{
    if v < i32::MIN as i64 {
        i32::MIN
    } else if v > i32::MAX as i64 {
        i32::MAX
    } else {
        v as i32
    }
}

/// Stores a 128-bit intermediate result in an `i32`, stopping at the ends
/// of the range.
pub fn narrow_wide(v: i128) -> (r: i32)
    ensures
        r as int == saturate(v as int),
{
    if v < i32::MIN as i128 {
        i32::MIN
    } else if v > i32::MAX as i128 {
        i32::MAX
    } else {
        v as i32
    }
}

/// Saturating sum of two scalars.
pub fn plus(a: i32, b: i32) -> (r: i32)
    ensures
        r as int == saturate(a + b),
{
    narrow(a as i64 + b as i64)
}

/// `v` moved into the interval from `lo` to `hi`.
pub fn clamp(v: i32, lo: i32, hi: i32) -> (r: i32)
    requires
        lo <= hi,
    ensures
        r as int == clamp_between(v as int, lo as int, hi as int),
{
    if v < lo {
        lo
    } else if v > hi {
        hi
    } else {
        v
    }
}

/// The largest magnitude that `quotient` takes as a numerator.
pub const WIDE_LIMIT: i128 = 0x4000_0000_0000_0000_0000_0000_0000_0000;

/// Division that rounds toward zero.
pub fn quotient(n: i128, d: i128) -> (q: i128)
    requires
        d > 0,
        -WIDE_LIMIT <= n <= WIDE_LIMIT,
    ensures
        q as int == trunc_div(n as int, d as int),
{
    let divisor: u128 = d as u128;
    if n >= 0 {
        let m: u128 = n as u128;
        (m / divisor) as i128
    } else {
        let m: u128 = (-n) as u128;
        -((m / divisor) as i128)
    }
}

/// What a division that rounds toward zero leaves over: less than the
/// divisor in magnitude, and of the sign of the numerator.
pub open spec fn trunc_rem(n: int, d: int) -> int
    recommends
        d > 0,
{
    n - trunc_div(n, d) * d
}

/// The remainder of a division that rounds toward zero is smaller than the
/// divisor and has the sign of the numerator, and the quotient is no
/// larger in magnitude than the numerator.
pub proof fn lemma_trunc_rem_bounds(n: int, d: int)
    requires
        d > 0,
    ensures
        n >= 0 ==> 0 <= trunc_rem(n, d) < d && 0 <= trunc_div(n, d) <= n,
        n <= 0 ==> -d < trunc_rem(n, d) <= 0 && n <= trunc_div(n, d) <= 0,
        magnitude(trunc_div(n, d) * d) <= magnitude(n),
{
    let m = magnitude(n);
    let q = m / d;
    assert(0 <= m - q * d < d && 0 <= q <= m && 0 <= q * d <= m) by (nonlinear_arith)
        requires
            q == m / d,
            m >= 0,
            d > 0,
    ;
    if n < 0 {
        assert((-q) * d == -(q * d)) by (nonlinear_arith);
    } else if n == 0 {
        assert(q == 0);
    }
}

/// The product of two fixed-point scalars: the exact product, brought back
/// to thousandths by a division that rounds toward zero.
pub open spec fn scaled_product(a: int, b: int) -> int {
    saturate(trunc_div(a * b, UNIT as int))
}

/// The product of two fixed-point scalars.
pub fn scale(a: i32, b: i32) -> (r: i32)
    ensures
        r as int == scaled_product(a as int, b as int),
{
    let wide: i128 = a as i128;
    let other: i128 = b as i128;
    assert(-0x4000_0000_0000_0000 <= wide * other <= 0x4000_0000_0000_0000) by (nonlinear_arith)
        requires
            -0x8000_0000 <= wide <= 0x7fff_ffff,
            -0x8000_0000 <= other <= 0x7fff_ffff,
    ;
    narrow_wide(quotient(wide * other, UNIT as i128))
}

/// The integer part of the square root.
pub fn integer_sqrt(n: u128) -> (r: u64)
    ensures
        is_floor_sqrt(n as int, r as int),
        r as int == floor_sqrt(n as int),
{
    let mut lo: u128 = 0;
    let mut hi: u128 = 0x1_0000_0000_0000_0000;
    assert(hi * hi > n) by (nonlinear_arith)
        requires
            hi == 0x1_0000_0000_0000_0000,
            n <= u128::MAX,
    ;
    while hi - lo > 1
        invariant
            lo < hi <= 0x1_0000_0000_0000_0000,
            lo * lo <= n,
            n < hi * hi,
        decreases hi - lo,
    {
        let mid: u128 = lo + (hi - lo) / 2;
        assert(mid * mid <= 0xffff_ffff_ffff_ffff * 0xffff_ffff_ffff_ffff) by (nonlinear_arith)
            requires
                0 <= mid <= 0xffff_ffff_ffff_ffff,
        ;
        if mid * mid <= n {
            lo = mid;
        } else {
            hi = mid;
        }
    }
    proof {
        lemma_floor_sqrt_is(n as int, lo as int);
    }
    lo as u64
}

} // verus!
