//! Fixed-point scalar arithmetic.
//!
//! Lengths are represented in milli-units: an `i64` value of `1000` stands
//! for one screen unit.  `SCALE` is that factor.  The helpers here give the
//! few primitive operations the geometry needs — a truncating multiply-divide
//! and an integer square root — each with an exact contract.

use vstd::prelude::*;

verus! {

/// Fixed-point factor: stored values are multiples of 1/SCALE of a unit.
pub const SCALE: i64 = 1000;

/// Truncating division (round toward zero), the convention used by all
/// fixed-point operations in this crate.  Only meaningful for `b > 0`.
pub open spec fn tdiv(a: int, b: int) -> int
    recommends
        b > 0,
{
    if a >= 0 {
        a / b
    } else {
        -((-a) / b)
    }
}

/// Fixed-point product of two scaled values: `a * b / SCALE`, truncated.
pub open spec fn scaled(a: int, b: int) -> int {
    tdiv(a * b, SCALE as int)
}

/// `r` is the integer square root of `n` rounded down.
pub open spec fn is_sqrt_floor(n: int, r: int) -> bool {
    0 <= r && r * r <= n && n < (r + 1) * (r + 1)
}

/// The integer square root of `n` rounded down (meaningful for `n >= 0`).
pub open spec fn sqrt_floor(n: int) -> int
    recommends
        n >= 0,
{
    choose|r: int| is_sqrt_floor(n, r)
}

/// Every nonnegative integer has a rounded-down square root.
pub proof fn lemma_sqrt_floor_exists(n: int)
    requires
        0 <= n,
    ensures
        is_sqrt_floor(n, sqrt_floor(n)),
    decreases n,
{
    if n == 0 {
        assert(is_sqrt_floor(0, 0));
    } else {
        lemma_sqrt_floor_exists(n - 1);
        let r = sqrt_floor(n - 1);
        if n < (r + 1) * (r + 1) {
            assert(is_sqrt_floor(n, r));
        } else {
            assert(n == (r + 1) * (r + 1));
            assert((r + 1) * (r + 1) < (r + 2) * (r + 2)) by (nonlinear_arith)
                requires
                    r >= 0,
            ;
            assert(is_sqrt_floor(n, r + 1));
        }
    }
}

/// The rounded-down square root is unique.
pub proof fn lemma_sqrt_floor_unique(n: int, r1: int, r2: int)
    by (nonlinear_arith)
    requires
        0 <= r1,
        r1 * r1 <= n,
        n < (r1 + 1) * (r1 + 1),
        0 <= r2,
        r2 * r2 <= n,
        n < (r2 + 1) * (r2 + 1),
    ensures
        r1 == r2,
{
}

/// `a`, but never below the floor `lo`.
pub open spec fn clamped_down(a: int, lo: int) -> int {
    if a < lo {
        lo
    } else {
        a
    }
}

/// The magnitude of a product is bounded by the product of the magnitudes.
pub proof fn lemma_mul_abs_bound(a: int, b: int, bound_a: int, bound_b: int)
    by (nonlinear_arith)
    requires
        -bound_a <= a <= bound_a,
        -bound_b <= b <= bound_b,
    ensures
        -(bound_a * bound_b) <= a * b <= bound_a * bound_b,
{
}

/// Truncating division keeps a quotient of `a <= m * d` within `[-m, m]`.
pub proof fn lemma_tdiv_in_range(a: int, d: int, m: int)
    requires
        d > 0,
        m >= 0,
        -(m * d) <= a <= m * d,
    ensures
        -m <= tdiv(a, d) <= m,
{
    if a >= 0 {
        vstd::arithmetic::div_mod::lemma_div_is_ordered(a, m * d, d);
        vstd::arithmetic::div_mod::lemma_div_by_multiple(m, d);
        vstd::arithmetic::div_mod::lemma_div_pos_is_pos(a, d);
    } else {
        vstd::arithmetic::div_mod::lemma_div_is_ordered(-a, m * d, d);
        vstd::arithmetic::div_mod::lemma_div_by_multiple(m, d);
        vstd::arithmetic::div_mod::lemma_div_pos_is_pos(-a, d);
    }
}

/// Truncating division extended to a signed divisor.
pub open spec fn sdiv(a: int, b: int) -> int
    recommends
        b != 0,
{
    if b > 0 {
        tdiv(a, b)
    } else {
        tdiv(-a, -b)
    }
}

/// Truncating division differs from the exact quotient by less than one
/// divisor, on the side of zero.
pub proof fn lemma_tdiv_mul_bounds(a: int, d: int)
    requires
        d > 0,
    ensures
        a >= 0 ==> d * tdiv(a, d) <= a < d * tdiv(a, d) + d,
        a < 0 ==> d * tdiv(a, d) - d < a <= d * tdiv(a, d),
{
    if a >= 0 {
        vstd::arithmetic::div_mod::lemma_fundamental_div_mod(a, d);
        vstd::arithmetic::div_mod::lemma_mod_bound(a, d);
    } else {
        vstd::arithmetic::div_mod::lemma_fundamental_div_mod(-a, d);
        vstd::arithmetic::div_mod::lemma_mod_bound(-a, d);
        assert(d * (-((-a) / d)) == -(d * ((-a) / d))) by (nonlinear_arith);
    }
}

/// `a / d` with truncation toward zero for a wide intermediate value, as
/// produced by a fixed-point multiplication.
pub fn tdiv_i128(a: i128, d: i64) -> (r: i64)
    requires
        d > 0,
        -(0x7FFF_FFFF_FFFF_FFFF * (d as int)) <= a as int <= 0x7FFF_FFFF_FFFF_FFFF * (d as int),
    ensures
        r == tdiv(a as int, d as int),
{
    proof {
        lemma_tdiv_in_range(a as int, d as int, 0x7FFF_FFFF_FFFF_FFFF);
        lemma_mul_abs_bound(0x7FFF_FFFF_FFFF_FFFF, d as int, 0x7FFF_FFFF_FFFF_FFFF, 0x7FFF_FFFF_FFFF_FFFF);
    }
    if a >= 0 {
        let q: u128 = (a as u128) / (d as u128);
        q as i64
    } else {
        let q: u128 = ((-a) as u128) / (d as u128);
        -(q as i64)
    }
}

/// The representative of `a` modulo `m` in `[0, m)`.  In specifications
/// `%` is already the Euclidean remainder; this computes it for a signed
/// executable value.
pub fn euclid_mod(a: i64, m: i64) -> (r: i64)
    requires
        m > 0,
        a > i64::MIN,
    ensures
        r == (a as int) % (m as int),
        0 <= r < m,
{
    if a >= 0 {
        let r: u64 = (a as u64) % (m as u64);
        r as i64
    } else {
        let mm: u64 = ((-a) as u64) % (m as u64);
        proof {
            vstd::arithmetic::div_mod::lemma_fundamental_div_mod(-(a as int), m as int);
            let q1 = -(a as int) / (m as int);
            let r1 = -(a as int) % (m as int);
            assert(mm == r1);
            vstd::arithmetic::mul::lemma_mul_is_commutative(q1, m as int);
            assert(-(a as int) == q1 * (m as int) + r1);
            vstd::arithmetic::mul::lemma_mul_unary_negation(q1, m as int);
            if mm == 0 {
                assert(a as int == (-q1) * (m as int) + 0);
                vstd::arithmetic::div_mod::lemma_fundamental_div_mod_converse(
                    a as int,
                    m as int,
                    -q1,
                    0,
                );
            } else {
                assert((-q1 - 1) * (m as int) == (-q1) * (m as int) - 1 * (m as int)) by {
                    vstd::arithmetic::mul::lemma_mul_is_distributive_sub_other_way(
                        m as int,
                        -q1,
                        1,
                    );
                }
                assert(a as int == (-q1 - 1) * (m as int) + ((m as int) - r1));
                vstd::arithmetic::div_mod::lemma_fundamental_div_mod_converse(
                    a as int,
                    m as int,
                    -q1 - 1,
                    m - mm,
                );
            }
        }
        if mm == 0 {
            0
        } else {
            m - (mm as i64)
        }
    }
}

/// `a * b / d` with truncation toward zero, computed without overflow.
pub fn mul_div(a: i64, b: i64, d: i64) -> (r: i64)
    requires
        d > 0,
        -0x4000_0000_0000_0000 < (a as int) * (b as int) < 0x4000_0000_0000_0000,
    ensures
        r == tdiv((a as int) * (b as int), d as int),
{
    let p: i128 = (a as i128) * (b as i128);
    if p >= 0 {
        let q: u128 = (p as u128) / (d as u128);
        assert(q < 0x4000_0000_0000_0000) by {
            assert(p as int / d as int <= p as int);
        }
        q as i64
    } else {
        let m: u128 = (-p) as u128;
        let q: u128 = m / (d as u128);
        assert(q < 0x4000_0000_0000_0000) by {
            assert(m as int / d as int <= m as int);
        }
        -(q as i64)
    }
}

/// Integer square root, rounded down.
pub fn isqrt(n: u64) -> (r: u64)
    ensures
        is_sqrt_floor(n as int, r as int),
        r == sqrt_floor(n as int),
        r < 0x1_0000_0000,
{
    let mut lo: u64 = 0;
    let mut hi: u64 = 0x1_0000_0000;
    while lo + 1 < hi
        invariant
            lo < hi <= 0x1_0000_0000,
            (lo as int) * (lo as int) <= n as int,
            (n as int) < (hi as int) * (hi as int),
        decreases hi - lo,
    {
        let mid: u64 = lo + (hi - lo) / 2;
        assert((mid as u128) * (mid as u128) <= 0x1_0000_0000_0000_0000) by (nonlinear_arith)
            requires
                mid <= 0x1_0000_0000,
        ;
        if (mid as u128) * (mid as u128) <= n as u128 {
            lo = mid;
        } else {
            hi = mid;
        }
    }
    proof {
        assert(hi == lo + 1);
        lemma_sqrt_floor_exists(n as int);
        lemma_sqrt_floor_unique(n as int, lo as int, sqrt_floor(n as int));
    }
    lo
}

} // verus!
