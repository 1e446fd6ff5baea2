//! Fixed-point scalar arithmetic: an `i64` holds a real value scaled by
//! `SCALE`, so `65536` stands for one. Every operation truncates toward
//! zero and is pinned exactly by the spec functions `tdiv`, `fmul_s`,
//! `fdiv_s` and `isqrt_s`.
use vstd::prelude::*;
use vstd::arithmetic::div_mod::{
    lemma_div_nonincreasing,
    lemma_div_is_ordered, lemma_div_pos_is_pos, lemma_fundamental_div_mod,
    lemma_div_multiples_vanish,
};

verus! {

/// One unit: the fixed-point representation of 1.
pub const SCALE: i64 = 65536;

/// Absolute value on mathematical integers.
pub open spec fn abs1(a: int) -> int {
    if a >= 0 { a } else { -a }
}

/// Division truncating toward zero (either operand may be negative).
pub open spec fn tdiv(a: int, b: int) -> int {
    let aa = if b < 0 { -a } else { a };
    let bb = if b < 0 { -b } else { b };
    if aa >= 0 { aa / bb } else { -((-aa) / bb) }
}

/// Fixed-point product: the scaled-down truncation of the exact product.
pub open spec fn fmul_s(a: int, b: int) -> int {
    tdiv(a * b, SCALE as int)
}

/// Fixed-point quotient: the scaled-up dividend over the divisor.
pub open spec fn fdiv_s(a: int, b: int) -> int {
    tdiv(a * (SCALE as int), b)
}

/// Integer square root, rounded down (zero on negative input).
pub open spec fn isqrt_s(n: int) -> int
    decreases n,
{
    if n <= 0 {
        0
    } else {
        let r = isqrt_s(n - 1);
        if (r + 1) * (r + 1) <= n {
            r + 1
        } else {
            r
        }
    }
}

/// Fixed-point square root of a nonnegative scalar.
pub open spec fn fsqrt_s(a: int) -> int
    recommends a >= 0,
{
    isqrt_s(a * (SCALE as int))
}

/// The defining property of the integer square root.
pub proof fn lemma_isqrt_property(n: int)
    ensures
        isqrt_s(n) >= 0,
        isqrt_s(n) * isqrt_s(n) <= if n >= 0 { n } else { 0 },
        n < (isqrt_s(n) + 1) * (isqrt_s(n) + 1),
    decreases n,
{
    if n > 0 {
        lemma_isqrt_property(n - 1);
        let r = isqrt_s(n - 1);
        if (r + 1) * (r + 1) <= n {
            assert(isqrt_s(n) == r + 1);
            assert((r + 1) * (r + 1) < (r + 2) * (r + 2)) by (nonlinear_arith)
                requires r >= 0,
            ;
            assert(isqrt_s(n) * isqrt_s(n) == (r + 1) * (r + 1));
            assert((isqrt_s(n) + 1) * (isqrt_s(n) + 1) == (r + 2) * (r + 2));
        } else {
            assert(isqrt_s(n) == r);
            assert(isqrt_s(n) * isqrt_s(n) == r * r);
            assert((isqrt_s(n) + 1) * (isqrt_s(n) + 1) == (r + 1) * (r + 1));
        }
    }
}

/// Any value meeting the square-root property is the integer square root.
proof fn lemma_isqrt_unique(n: int, r: int)
    requires
        0 <= r,
        r * r <= n,
        n < (r + 1) * (r + 1),
    ensures
        r == isqrt_s(n),
{
    lemma_isqrt_property(n);
    assert(r == isqrt_s(n)) by (nonlinear_arith)
        requires
            0 <= r,
            0 <= n,
            r * r <= n,
            n < (r + 1) * (r + 1),
            isqrt_s(n) >= 0,
            isqrt_s(n) * isqrt_s(n) <= n,
            n < (isqrt_s(n) + 1) * (isqrt_s(n) + 1),
    ;
}

/// The integer square root is monotone.
pub proof fn lemma_isqrt_monotone(m: int, n: int)
    requires m <= n,
    ensures isqrt_s(m) <= isqrt_s(n),
    decreases n - m,
{
    if m < n {
        lemma_isqrt_monotone(m, n - 1);
    }
}

/// Truncating division never grows the magnitude, and shrinks it by the
/// divisor's magnitude.
pub proof fn lemma_tdiv_mag(a: int, b: int)
    requires b != 0,
    ensures
        abs1(tdiv(a, b)) <= abs1(a),
        abs1(tdiv(a, b)) * abs1(b) <= abs1(a),
        a >= 0 && b > 0 ==> tdiv(a, b) >= 0,
{
    let aa = abs1(a);
    let bb = abs1(b);
    lemma_div_pos_is_pos(aa, bb);
    lemma_fundamental_div_mod(aa, bb);
    assert(aa % bb >= 0) by (nonlinear_arith)
        requires bb > 0, aa >= 0,
    ;
    assert((aa / bb) * bb <= aa);
    lemma_div_nonincreasing(aa, bb);
    assert(abs1(tdiv(a, b)) == aa / bb);
}

/// Division by a positive constant is monotone on nonnegative operands.
pub proof fn lemma_tdiv_monotone(a: int, b: int, d: int)
    requires
        0 <= a <= b,
        d > 0,
    ensures
        0 <= tdiv(a, d) <= tdiv(b, d),
{
    lemma_div_is_ordered(a, b, d);
    lemma_div_pos_is_pos(a, d);
}

/// Truncating division by a positive divisor is monotone on all operands.
pub proof fn lemma_tdiv_monotone_all(a: int, b: int, d: int)
    requires
        a <= b,
        d > 0,
    ensures
        tdiv(a, d) <= tdiv(b, d),
{
    if a >= 0 {
        lemma_div_is_ordered(a, b, d);
    } else if b < 0 {
        lemma_div_is_ordered(-b, -a, d);
    } else {
        lemma_div_pos_is_pos(b, d);
        lemma_div_pos_is_pos(-a, d);
    }
}

/// Scaling by a whole multiple of the divisor divides exactly.
pub proof fn lemma_tdiv_exact(x: int, d: int)
    requires d > 0,
    ensures tdiv(x * d, d) == x,
{
    if x >= 0 {
        lemma_div_multiples_vanish(x, d);
        assert(x * d == d * x) by (nonlinear_arith);
    } else {
        lemma_div_multiples_vanish(-x, d);
        assert(-(x * d) == d * (-x)) by (nonlinear_arith);
        assert(tdiv(x * d, d) == -((-(x * d)) / d));
    }
}

/// Truncating division of an `i64` by a nonzero `i64`.
pub fn sdiv64(a: i64, b: i64) -> (r: i64)
    requires
        b != 0,
        -0x4000_0000_0000_0000 <= a <= 0x4000_0000_0000_0000,
        -0x4000_0000_0000_0000 <= b <= 0x4000_0000_0000_0000,
    ensures
        r == tdiv(a as int, b as int),
        abs1(r as int) <= abs1(a as int),
        abs1(r as int) * abs1(b as int) <= abs1(a as int),
{
    proof {
        lemma_tdiv_mag(a as int, b as int);
    }
    let aa: u64 = if a >= 0 { a as u64 } else { (-a) as u64 };
    let bb: u64 = if b >= 0 { b as u64 } else { (-b) as u64 };
    let q: u64 = aa / bb;
    if (a >= 0) == (b >= 0) {
        q as i64
    } else {
        -(q as i64)
    }
}

/// Truncating division of an `i128` by a nonzero `i128`.
pub fn sdiv128(a: i128, b: i128) -> (r: i128)
    requires
        b != 0,
        abs1(a as int) < 0x4000_0000_0000_0000_0000_0000_0000_0000,
        abs1(b as int) < 0x4000_0000_0000_0000_0000_0000_0000_0000,
    ensures
        r == tdiv(a as int, b as int),
        abs1(r as int) <= abs1(a as int),
        abs1(r as int) * abs1(b as int) <= abs1(a as int),
{
    proof {
        lemma_tdiv_mag(a as int, b as int);
    }
    let aa: u128 = if a >= 0 { a as u128 } else { (-a) as u128 };
    let bb: u128 = if b >= 0 { b as u128 } else { (-b) as u128 };
    let q: u128 = aa / bb;
    if (a >= 0) == (b >= 0) {
        q as i128
    } else {
        -(q as i128)
    }
}

/// Integer square root by bisection, rounded down.
pub fn isqrt(n: u128) -> (r: u64)
    requires
        n < 0x1_0000_0000_0000_0000_0000,  // below 2^80
    ensures
        r as int == isqrt_s(n as int),
        (r as int) * (r as int) <= n as int,
        (n as int) < (r as int + 1) * (r as int + 1),
{
    let mut lo: u128 = 0;
    let mut hi: u128 = 0x1_0000_0000_0000;  // 2^48, whose square tops the domain
    assert(hi * hi > n) by (nonlinear_arith)
        requires hi == 0x1_0000_0000_0000, n < 0x1_0000_0000_0000_0000_0000,
    ;
    while lo + 1 < hi
        invariant
            0 <= lo < hi <= 0x1_0000_0000_0000,
            (lo as int) * (lo as int) <= n as int,
            (n as int) < (hi as int) * (hi as int),
        decreases hi - lo,
    {
        let mid: u128 = lo + (hi - lo) / 2;
        assert(lo < mid < hi);
        assert((mid as int) * (mid as int) <= 0x1_0000_0000_0000 * 0x1_0000_0000_0000)
            by (nonlinear_arith)
            requires 0 <= (mid as int) <= 0x1_0000_0000_0000,
        ;
        if mid * mid <= n {
            lo = mid;
        } else {
            hi = mid;
        }
    }
    proof {
        lemma_isqrt_unique(n as int, lo as int);
    }
    lo as u64
}

/// Fixed-point product with truncation toward zero.
pub fn fmul(a: i64, b: i64) -> (r: i64)
    requires
        abs1(a as int) <= 0x80_0000_0000,  // 2^39
        abs1(b as int) <= 0x80_0000_0000,
    ensures
        r == fmul_s(a as int, b as int),
        abs1(r as int) * (SCALE as int) <= abs1(a as int) * abs1(b as int),
        abs1(r as int) <= 0x4000_0000_0000_0000,
{
    proof {
        assert(-0x4000_0000_0000_0000_0000 <= (a as int) * (b as int) <= 0x4000_0000_0000_0000_0000)
            by (nonlinear_arith)
            requires
                abs1(a as int) <= 0x80_0000_0000,
                abs1(b as int) <= 0x80_0000_0000,
        ;
    }
    let p: i128 = (a as i128) * (b as i128);
    proof {
        assert(abs1(p as int) == abs1(a as int) * abs1(b as int)
            && abs1(p as int) <= 0x80_0000_0000 * 0x80_0000_0000) by (nonlinear_arith)
            requires
                p == (a as int) * (b as int),
                abs1(a as int) <= 0x80_0000_0000,
                abs1(b as int) <= 0x80_0000_0000,
        ;
        lemma_tdiv_mag(p as int, SCALE as int);
        lemma_div_is_ordered(abs1(p as int), (0x80_0000_0000 * 0x80_0000_0000) as int, SCALE as int);
    }
    let q: i128 = sdiv128(p, SCALE as i128);
    q as i64
}

/// Fixed-point quotient with truncation toward zero.
pub fn fdiv(a: i64, b: i64) -> (r: i64)
    requires
        b != 0,
        abs1(a as int) <= 0x4000_0000_0000,  // 2^46
        abs1(b as int) <= 0x4000_0000_0000,
    ensures
        r == fdiv_s(a as int, b as int),
        abs1(r as int) * abs1(b as int) <= abs1(a as int) * (SCALE as int),
        abs1(r as int) <= 0x4000_0000_0000_0000,
        a >= 0 && b > 0 ==> r >= 0,
{
    proof {
        assert(-0x4000_0000_0000_0000_0000 <= (a as int) * (SCALE as int)
            <= 0x4000_0000_0000_0000_0000) by (nonlinear_arith)
            requires abs1(a as int) <= 0x4000_0000_0000,
        ;
    }
    let p: i128 = (a as i128) * (SCALE as i128);
    proof {
        assert(abs1(p as int) == abs1(a as int) * (SCALE as int)) by (nonlinear_arith)
            requires p == (a as int) * (SCALE as int),
        ;
        assert(abs1(a as int) * (SCALE as int) <= 0x4000_0000_0000 * 0x1_0000) by (nonlinear_arith)
            requires abs1(a as int) <= 0x4000_0000_0000,
        ;
        lemma_tdiv_mag(p as int, b as int);
        assert(abs1(tdiv(p as int, b as int)) * 1 <= abs1(tdiv(p as int, b as int)) * abs1(b as int))
            by (nonlinear_arith)
            requires abs1(b as int) >= 1, abs1(tdiv(p as int, b as int)) >= 0,
        ;
    }
    let q: i128 = sdiv128(p, b as i128);
    q as i64
}

/// Fixed-point square root of a nonnegative scalar, rounded down.
pub fn fsqrt(a: i64) -> (r: i64)
    requires
        0 <= a <= 0x4000_0000_0000_0000,  // 2^62
    ensures
        r == fsqrt_s(a as int),
        r >= 0,
        (r as int) * (r as int) <= (a as int) * (SCALE as int),
        (a as int) * (SCALE as int) < (r as int + 1) * (r as int + 1),
        abs1(r as int) <= 0x8000_0000_0000,  // 2^47
{
    proof {
        assert((a as int) * (SCALE as int) < 0x1_0000_0000_0000_0000_0000) by (nonlinear_arith)
            requires 0 <= a as int <= 0x4000_0000_0000_0000,
        ;
    }
    let n: u128 = (a as u128) * (SCALE as u128);
    proof {
        lemma_isqrt_property(n as int);
        assert(isqrt_s(n as int) <= 0x8000_0000_0000) by (nonlinear_arith)
            requires
                isqrt_s(n as int) >= 0,
                isqrt_s(n as int) * isqrt_s(n as int) <= n as int,
                (n as int) < 0x1_0000_0000_0000_0000_0000,
        ;
    }
    let r: u64 = isqrt(n);
    r as i64
}

} // verus!
