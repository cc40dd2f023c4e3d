//! Integer groundwork for the simulation core.
//!
//! The simulation measures distances in whole world units and time in
//! milliseconds, so every quantity is an integer. This module provides the
//! rounding rules those integers need — truncating division for scaling
//! products back down, Euclidean remainder for the toroidal wrap, and a
//! floor integer square root for vector lengths — together with the spec
//! functions the rest of the library states its contracts over.

use vstd::prelude::*;
use vstd::arithmetic::div_mod::lemma_fundamental_div_mod;
use vstd::arithmetic::div_mod::lemma_fundamental_div_mod_converse_mod;
use vstd::arithmetic::div_mod::lemma_div_pos_is_pos;
use vstd::arithmetic::div_mod::lemma_div_is_ordered;
use vstd::arithmetic::div_mod::lemma_div_nonincreasing;
use vstd::arithmetic::div_mod::lemma_div_by_multiple;

verus! {

/// Division rounded toward zero, the rule used wherever a scaled product is
/// brought back to world units (matching how a hardware divide truncates).
pub open spec fn tdiv(a: int, b: int) -> int {
    if a >= 0 {
        a / b
    } else {
        -((-a) / b)
    }
}

/// `x` clamped into the closed interval `[-m, m]`.
pub open spec fn clamp_abs(x: int, m: int) -> int {
    if x > m {
        m
    } else if x < -m {
        -m
    } else {
        x
    }
}

/// Subtraction on `i64` values that saturates at the smallest value instead
/// of wrapping.
pub open spec fn sat_sub(a: int, b: int) -> int {
    if a - b < i64::MIN {
        i64::MIN as int
    } else {
        a - b
    }
}

/// `r` is the square root of `n`, rounded down.
pub open spec fn is_sqrt_floor(n: int, r: int) -> bool {
    0 <= r && r * r <= n && n < (r + 1) * (r + 1)
}

/// The square root of `n`, rounded down. Meaningful for `n >= 0`, where
/// `lemma_sqrt_floor` shows it satisfies `is_sqrt_floor`.
pub open spec fn sqrt_floor(n: int) -> int {
    choose|r: int| #[trigger] is_sqrt_floor(n, r)
}

proof fn lemma_sqrt_floor_exists(n: int)
    requires
        n >= 0,
    ensures
        exists|r: int| #[trigger] is_sqrt_floor(n, r),
    decreases n,
{
    if n == 0 {
        assert(is_sqrt_floor(0, 0));
    } else {
        lemma_sqrt_floor_exists(n - 1);
        let r0 = choose|r: int| #[trigger] is_sqrt_floor(n - 1, r);
        if (r0 + 1) * (r0 + 1) <= n {
            assert(n == (r0 + 1) * (r0 + 1));
            assert(n < (r0 + 2) * (r0 + 2)) by (nonlinear_arith)
                requires
                    n == (r0 + 1) * (r0 + 1),
                    r0 >= 0,
            ;
            assert(is_sqrt_floor(n, r0 + 1));
        } else {
            assert(is_sqrt_floor(n, r0));
        }
    }
}

/// For a nonnegative argument, `sqrt_floor` really is the floor square root.
pub proof fn lemma_sqrt_floor(n: int)
    requires
        n >= 0,
    ensures
        is_sqrt_floor(n, sqrt_floor(n)),
{
    lemma_sqrt_floor_exists(n);
}

/// Only one integer is the floor square root of `n`.
pub proof fn lemma_sqrt_floor_unique(n: int, r: int)
    requires
        is_sqrt_floor(n, r),
    ensures
        r == sqrt_floor(n),
{
    assert(exists|x: int| #[trigger] is_sqrt_floor(n, x));
    let s = sqrt_floor(n);
    assert(is_sqrt_floor(n, s));
    if r < s {
        assert((r + 1) * (r + 1) <= s * s) by (nonlinear_arith)
            requires
                0 <= r,
                r < s,
        ;
        assert(false);
    }
    if s < r {
        assert((s + 1) * (s + 1) <= r * r) by (nonlinear_arith)
            requires
                0 <= s,
                s < r,
        ;
        assert(false);
    }
}

/// Floor integer square root, by binary search on the root.
pub fn isqrt(n: u128) -> (r: u64)
    requires
        n < 0x4000_0000_0000_0000_0000_0000_0000_0000u128,
    ensures
        r as int == sqrt_floor(n as int),
        is_sqrt_floor(n as int, r as int),
{
    let mut lo: u128 = 0;
    let mut hi: u128 = 0x8000_0000_0000_0000u128;
    assert((hi as int) * (hi as int) == 0x4000_0000_0000_0000_0000_0000_0000_0000) by (nonlinear_arith)
        requires
            hi == 0x8000_0000_0000_0000u128,
    ;
    while lo + 1 < hi
        invariant
            lo < hi,
            hi <= 0x8000_0000_0000_0000u128,
            (lo as int) * (lo as int) <= n as int,
            (n as int) < (hi as int) * (hi as int),
        decreases hi - lo,
    {
        let mid = lo + (hi - lo) / 2;
        assert(lo < mid < hi);
        assert((mid as int) * (mid as int) <= (0x8000_0000_0000_0000 - 1) * (0x8000_0000_0000_0000 - 1))
            by (nonlinear_arith)
            requires
                0 <= (mid as int) <= 0x8000_0000_0000_0000 - 1,
        ;
        let sq = mid * mid;
        if sq <= n {
            lo = mid;
        } else {
            hi = mid;
        }
    }
    proof {
        assert(hi == lo + 1);
        lemma_sqrt_floor_unique(n as int, lo as int);
    }
    lo as u64
}

/// Truncating division on `i64`, through the unsigned divide.
pub fn div_trunc(a: i64, b: i64) -> (q: i64)
    requires
        1 <= b,
        i64::MIN < a,
    ensures
        q as int == tdiv(a as int, b as int),
{
    if a >= 0 {
        let q = (a as u64) / (b as u64);
        proof {
            lemma_div_pos_is_pos(a as int, b as int);
            lemma_div_nonincreasing(a as int, b as int);
        }
        q as i64
    } else {
        let na = (-a) as u64;
        let q = na / (b as u64);
        proof {
            lemma_div_pos_is_pos(na as int, b as int);
            lemma_div_nonincreasing(na as int, b as int);
        }
        -(q as i64)
    }
}

/// Truncating division on `i128`, through the unsigned divide.
pub fn div_trunc128(a: i128, b: i128) -> (q: i128)
    requires
        1 <= b,
        i128::MIN < a,
    ensures
        q as int == tdiv(a as int, b as int),
{
    if a >= 0 {
        let q = (a as u128) / (b as u128);
        proof {
            lemma_div_pos_is_pos(a as int, b as int);
            lemma_div_nonincreasing(a as int, b as int);
        }
        q as i128
    } else {
        let na = (-a) as u128;
        let q = na / (b as u128);
        proof {
            lemma_div_pos_is_pos(na as int, b as int);
            lemma_div_nonincreasing(na as int, b as int);
        }
        -(q as i128)
    }
}

/// Euclidean remainder on `i64`: the result is always in `[0, m)`, also for
/// a negative dividend (a true modulo, not the truncating remainder).
pub fn mod_euclid(a: i64, m: i64) -> (r: i64)
    requires
        1 <= m,
        i64::MIN < a,
    ensures
        r as int == (a as int) % (m as int),
        0 <= r < m,
{
    if a >= 0 {
        let r = (a as u64) % (m as u64);
        r as i64
    } else {
        let na = (-a) as u64;
        let rr = na % (m as u64);
        if rr == 0 {
            proof {
                lemma_fundamental_div_mod(na as int, m as int);
                let q0 = (na as int) / (m as int);
                assert(a as int == (-q0) * (m as int) + 0) by (nonlinear_arith)
                    requires
                        na as int == (m as int) * q0 + (rr as int),
                        rr as int == 0,
                        a as int == -(na as int),
                ;
                lemma_fundamental_div_mod_converse_mod(a as int, m as int, -q0, 0);
            }
            0
        } else {
            proof {
                lemma_fundamental_div_mod(na as int, m as int);
                let q0 = (na as int) / (m as int);
                assert(a as int == (-q0 - 1) * (m as int) + ((m as int) - (rr as int)))
                    by (nonlinear_arith)
                    requires
                        na as int == (m as int) * q0 + (rr as int),
                        a as int == -(na as int),
                ;
                lemma_fundamental_div_mod_converse_mod(
                    a as int,
                    m as int,
                    -q0 - 1,
                    (m as int) - (rr as int),
                );
            }
            m - (rr as i64)
        }
    }
}

/// Saturating subtraction on `i64` (the subtrahend must be nonnegative).
pub fn sat_sub_i64(a: i64, b: i64) -> (r: i64)
    requires
        0 <= b,
    ensures
        r as int == sat_sub(a as int, b as int),
{
    if a >= i64::MIN + b {
        a - b
    } else {
        i64::MIN
    }
}

/// Clamp an `i64` into `[-m, m]`.
pub fn clamp_abs_i64(x: i64, m: i64) -> (r: i64)
    requires
        0 <= m,
    ensures
        r as int == clamp_abs(x as int, m as int),
{
    if x > m {
        m
    } else if x < -m {
        -m
    } else {
        x
    }
}

/// Truncating division never rounds past zero: the quotient times the
/// divisor stays on the dividend's side of zero, within the dividend.
pub proof fn lemma_tdiv_bounds(p: int, q: int)
    requires
        1 <= q,
    ensures
        p >= 0 ==> 0 <= tdiv(p, q) && tdiv(p, q) * q <= p,
        p <= 0 ==> tdiv(p, q) <= 0 && p <= tdiv(p, q) * q,
{
    if p >= 0 {
        lemma_div_pos_is_pos(p, q);
        lemma_fundamental_div_mod(p, q);
        assert(0 <= p % q);
        assert((p / q) * q <= p) by (nonlinear_arith)
            requires
                p == q * (p / q) + p % q,
                0 <= p % q,
        ;
    } else {
        lemma_div_pos_is_pos(-p, q);
        lemma_fundamental_div_mod(-p, q);
        assert(0 <= (-p) % q);
        assert(p <= -((-p) / q) * q) by (nonlinear_arith)
            requires
                -p == q * ((-p) / q) + (-p) % q,
                0 <= (-p) % q,
        ;
    }
}

/// A bound on the dividend gives the same bound on the truncating quotient.
pub proof fn lemma_tdiv_le(p: int, bound: int, q: int)
    requires
        1 <= q,
        0 <= bound,
        -(bound * q) <= p <= bound * q,
    ensures
        -bound <= tdiv(p, q) <= bound,
{
    lemma_div_by_multiple(bound, q);
    assert(bound * q == q * bound) by (nonlinear_arith);
    if p >= 0 {
        lemma_div_pos_is_pos(p, q);
        lemma_div_is_ordered(p, bound * q, q);
    } else {
        lemma_div_pos_is_pos(-p, q);
        lemma_div_is_ordered(-p, bound * q, q);
    }
}

/// Squaring the truncating-quotient inequality: `(p / q)^2 * q^2 <= p^2`.
pub proof fn lemma_tdiv_sq(p: int, q: int)
    requires
        1 <= q,
    ensures
        tdiv(p, q) * tdiv(p, q) * (q * q) <= p * p,
{
    lemma_tdiv_bounds(p, q);
    let t = tdiv(p, q);
    if p >= 0 {
        assert(t * t * (q * q) <= p * p) by (nonlinear_arith)
            requires
                1 <= q,
                0 <= t,
                t * q <= p,
        ;
    } else {
        assert(t * t * (q * q) <= p * p) by (nonlinear_arith)
            requires
                1 <= q,
                t <= 0,
                p <= t * q,
        ;
    }
}


/// Bounds on two factors give a bound on their product.
pub proof fn lemma_mul_range(x: int, y: int, mx: int, my: int)
    requires
        -mx <= x <= mx,
        -my <= y <= my,
        0 <= mx,
        0 <= my,
    ensures
        -(mx * my) <= x * y <= mx * my,
{
    assert(-(mx * my) <= x * y <= mx * my) by (nonlinear_arith)
        requires
            -mx <= x <= mx,
            -my <= y <= my,
            0 <= mx,
            0 <= my,
    ;
}

} // verus!
