//! Scalar helpers: truncating division and integer square root.
//!
//! Rust's `/` on signed integers truncates toward zero; `tdiv` is the
//! mathematical mirror of that operation, and every division the geometry
//! performs is stated through it.

use vstd::prelude::*;

verus! {

/// Truncated (toward zero) quotient of `a` by `b`, for `b > 0`.
pub open spec fn tdiv(a: int, b: int) -> int
    recommends
        b > 0,
{
    if a >= 0 {
        a / b
    } else {
        -((-a) / b)
    }
}

/// The truncated quotient never exceeds the exact one in magnitude.
pub proof fn lemma_tdiv_bound(a: int, b: int)
    requires
        b > 0,
    ensures
        a >= 0 ==> 0 <= tdiv(a, b) <= a,
        a < 0 ==> a <= tdiv(a, b) <= 0,
{
    if a >= 0 {
        vstd::arithmetic::div_mod::lemma_div_is_ordered(0, a, b);
        vstd::arithmetic::div_mod::lemma_div_nonincreasing(a, b);
    } else {
        vstd::arithmetic::div_mod::lemma_div_is_ordered(0, -a, b);
        vstd::arithmetic::div_mod::lemma_div_nonincreasing(-a, b);
    }
}

/// Truncated division is monotone in the dividend.
pub proof fn lemma_tdiv_ordered(a1: int, a2: int, b: int)
    requires
        b > 0,
        a1 <= a2,
    ensures
        tdiv(a1, b) <= tdiv(a2, b),
{
    if a1 >= 0 {
        vstd::arithmetic::div_mod::lemma_div_is_ordered(a1, a2, b);
    } else if a2 < 0 {
        vstd::arithmetic::div_mod::lemma_div_is_ordered(-a2, -a1, b);
    } else {
        lemma_tdiv_bound(a1, b);
        lemma_tdiv_bound(a2, b);
    }
}

/// Truncated quotient of two `i64` values, `b > 0`.
pub fn div_i64(a: i64, b: i64) -> (q: i64)
    requires
        b > 0,
        a != i64::MIN,
    ensures
        q == tdiv(a as int, b as int),
{
    if a >= 0 {
        let q0: u64 = (a as u64) / (b as u64);
        proof {
            vstd::arithmetic::div_mod::lemma_div_nonincreasing(a as int, b as int);
            vstd::arithmetic::div_mod::lemma_div_is_ordered(0, a as int, b as int);
        }
        q0 as i64
    } else {
        let n: i64 = -a;
        let q0: u64 = (n as u64) / (b as u64);
        proof {
            vstd::arithmetic::div_mod::lemma_div_nonincreasing(n as int, b as int);
            vstd::arithmetic::div_mod::lemma_div_is_ordered(0, n as int, b as int);
        }
        -(q0 as i64)
    }
}

/// Truncated quotient of two `i128` values, `b > 0`.
pub fn div_i128(a: i128, b: i128) -> (q: i128)
    requires
        b > 0,
        a != i128::MIN,
    ensures
        q == tdiv(a as int, b as int),
{
    if a >= 0 {
        let q0: u128 = (a as u128) / (b as u128);
        proof {
            vstd::arithmetic::div_mod::lemma_div_nonincreasing(a as int, b as int);
            vstd::arithmetic::div_mod::lemma_div_is_ordered(0, a as int, b as int);
        }
        q0 as i128
    } else {
        let n: i128 = -a;
        let q0: u128 = (n as u128) / (b as u128);
        proof {
            vstd::arithmetic::div_mod::lemma_div_nonincreasing(n as int, b as int);
            vstd::arithmetic::div_mod::lemma_div_is_ordered(0, n as int, b as int);
        }
        -(q0 as i128)
    }
}

/// Ceiling quotient of `a` by `b`, for `b > 0` (integer division in specs
/// rounds toward negative infinity, so negating twice rounds up).
pub open spec fn cdiv(a: int, b: int) -> int
    recommends
        b > 0,
{
    -((-a) / b)
}

/// Floor quotient of two `i128` values, `b > 0`. Spec-level `/` on `int`
/// already rounds toward negative infinity, so the contract is direct.
pub fn fdiv_i128(a: i128, b: i128) -> (q: i128)
    requires
        b > 0,
        -0x1000_0000_0000_0000_0000_0000_0000 <= a <= 0x1000_0000_0000_0000_0000_0000_0000,
    ensures
        q == (a as int) / (b as int),
        a >= 0 ==> 0 <= q <= a,
        a < 0 ==> a <= q <= 0,
{
    if a >= 0 {
        let q0: u128 = (a as u128) / (b as u128);
        proof {
            vstd::arithmetic::div_mod::lemma_div_nonincreasing(a as int, b as int);
            vstd::arithmetic::div_mod::lemma_div_is_ordered(0, a as int, b as int);
        }
        q0 as i128
    } else {
        let m: i128 = -a;
        let q0: u128 = ((m as u128) + (b as u128) - 1) / (b as u128);
        proof {
            lemma_neg_ceil(m as int, b as int);
            vstd::arithmetic::div_mod::lemma_div_is_ordered(
                0,
                (m as int) + (b as int) - 1,
                b as int,
            );
            vstd::arithmetic::div_mod::lemma_fundamental_div_mod(
                (m as int) + (b as int) - 1,
                b as int,
            );
            vstd::arithmetic::div_mod::lemma_mod_division_less_than_divisor(
                (m as int) + (b as int) - 1,
                b as int,
            );
            assert(q0 <= m) by (nonlinear_arith)
                requires
                    (b as int) * (q0 as int) <= (m as int) + (b as int) - 1,
                    b >= 1,
                    q0 >= 0,
                    m >= 1,
            ;
        }
        -(q0 as i128)
    }
}

/// Ceiling quotient of two `i128` values, `b > 0`.
pub fn cdiv_i128(a: i128, b: i128) -> (q: i128)
    requires
        b > 0,
        -0x1000_0000_0000_0000_0000_0000_0000 <= a <= 0x1000_0000_0000_0000_0000_0000_0000,
    ensures
        q == cdiv(a as int, b as int),
{
    let q0 = fdiv_i128(-a, b);
    -q0
}

/// Bound the magnitude of a ceiling quotient by the dividend's.
pub proof fn lemma_cdiv_bound(a: int, b: int)
    requires
        b > 0,
    ensures
        a >= 0 ==> 0 <= cdiv(a, b) <= a,
        a < 0 ==> a <= cdiv(a, b) <= 0,
{
    lemma_tdiv_bound(-a, b);
    if a >= 0 {
        if a > 0 {
            vstd::arithmetic::div_mod::lemma_fundamental_div_mod(-a, b);
            vstd::arithmetic::div_mod::lemma_mod_division_less_than_divisor(-a, b);
            assert((-a) / b >= -a) by {
                lemma_neg_ceil(a, b);
                vstd::arithmetic::div_mod::lemma_div_is_ordered(0, a + b - 1, b);
                vstd::arithmetic::div_mod::lemma_fundamental_div_mod(a + b - 1, b);
                vstd::arithmetic::div_mod::lemma_mod_division_less_than_divisor(a + b - 1, b);
                assert((a + b - 1) / b <= a) by (nonlinear_arith)
                    requires
                        b * ((a + b - 1) / b) <= a + b - 1,
                        b >= 1,
                        (a + b - 1) / b >= 0,
                        a >= 1,
                ;
            }
        }
    } else {
        vstd::arithmetic::div_mod::lemma_div_is_ordered(0, -a, b);
        vstd::arithmetic::div_mod::lemma_div_nonincreasing(-a, b);
    }
}

/// `floor(-m / b) == -((m + b - 1) / b)` for `m >= 0`.
proof fn lemma_neg_ceil(m: int, b: int)
    requires
        b > 0,
        m >= 0,
    ensures
        (-m) / b == -((m + b - 1) / b),
{
    let q = m / b;
    let r = m % b;
    vstd::arithmetic::div_mod::lemma_fundamental_div_mod(m, b);
    vstd::arithmetic::div_mod::lemma_mod_division_less_than_divisor(m, b);
    if r == 0 {
        assert(-m == (-q) * b + 0 && m + b - 1 == q * b + (b - 1)) by (nonlinear_arith)
            requires
                m == b * q,
        ;
        vstd::arithmetic::div_mod::lemma_fundamental_div_mod_converse(-m, b, -q, 0);
        vstd::arithmetic::div_mod::lemma_fundamental_div_mod_converse(m + b - 1, b, q, b - 1);
    } else {
        assert(-m == (-q - 1) * b + (b - r) && m + b - 1 == (q + 1) * b + (r - 1))
            by (nonlinear_arith)
            requires
                m == b * q + r,
        ;
        vstd::arithmetic::div_mod::lemma_fundamental_div_mod_converse(-m, b, -q - 1, b - r);
        vstd::arithmetic::div_mod::lemma_fundamental_div_mod_converse(m + b - 1, b, q + 1, r - 1);
    }
}

/// The floor quotient is the greatest integer whose product with the
/// divisor stays at or below the dividend, and the ceiling quotient the
/// least whose product reaches it.
pub proof fn lemma_div_bracket(a: int, b: int)
    requires
        b > 0,
    ensures
        b * (a / b) <= a < b * (a / b + 1),
        b * (cdiv(a, b) - 1) < a <= b * cdiv(a, b),
{
    vstd::arithmetic::div_mod::lemma_fundamental_div_mod(a, b);
    vstd::arithmetic::div_mod::lemma_mod_division_less_than_divisor(a, b);
    assert(b * (a / b + 1) == b * (a / b) + b) by (nonlinear_arith);
    vstd::arithmetic::div_mod::lemma_fundamental_div_mod(-a, b);
    vstd::arithmetic::div_mod::lemma_mod_division_less_than_divisor(-a, b);
    let q = (-a) / b;
    assert(b * (-q) == -(b * q) && b * (-q - 1) == -(b * q) - b) by (nonlinear_arith);
}

/// A rational between two integers truncates into their closed interval.
pub proof fn lemma_trunc_in_interval(tn: int, td: int, a: int, b: int)
    requires
        td > 0,
        a * td <= tn,
        tn <= b * td,
    ensures
        a <= tdiv(tn, td) <= b,
{
    if tn >= 0 {
        vstd::arithmetic::div_mod::lemma_fundamental_div_mod(tn, td);
        vstd::arithmetic::div_mod::lemma_mod_division_less_than_divisor(tn, td);
        assert(a <= tn / td && tn / td <= b) by (nonlinear_arith)
            requires
                td > 0,
                a * td <= tn,
                tn <= b * td,
                td * (tn / td) <= tn < td * (tn / td) + td,
        ;
    } else {
        vstd::arithmetic::div_mod::lemma_fundamental_div_mod(-tn, td);
        vstd::arithmetic::div_mod::lemma_mod_division_less_than_divisor(-tn, td);
        assert(a <= -((-tn) / td) && -((-tn) / td) <= b) by (nonlinear_arith)
            requires
                td > 0,
                tn < 0,
                a * td <= tn,
                tn <= b * td,
                td * ((-tn) / td) <= -tn < td * ((-tn) / td) + td,
        ;
    }
}

/// Wide multiplication, callable once the caller shows the product fits.
pub fn mul_i128(a: i128, b: i128) -> (r: i128)
    requires
        -0x4000_0000_0000_0000_0000_0000_0000_0000 <= (a as int) * (b as int)
            <= 0x4000_0000_0000_0000_0000_0000_0000_0000,
    ensures
        r == (a as int) * (b as int),
{
    a * b
}

/// Floor of the square root of a natural number.
pub open spec fn is_isqrt(x: int, r: int) -> bool {
    0 <= r && r * r <= x < (r + 1) * (r + 1)
}

/// Binary-search integer square root.
pub fn isqrt_u128(x: u128) -> (r: u128)
    ensures
        is_isqrt(x as int, r as int),
        r < 0x1_0000_0000_0000_0000,
{
    let mut lo: u128 = 0;
    let mut hi: u128 = 0x1_0000_0000_0000_0000;
    if x < hi {
        hi = x + 1;
        assert((x as int) < (hi as int) * (hi as int)) by (nonlinear_arith)
            requires
                hi == x + 1,
                x >= 0,
        ;
    }
    while lo + 1 < hi
        invariant
            lo < hi <= 0x1_0000_0000_0000_0000,
            (lo as int) * (lo as int) <= x as int,
            (x as int) < (hi as int) * (hi as int),
        decreases hi - lo,
    {
        let mid: u128 = lo + (hi - lo) / 2;
        assert(lo < mid < hi);
        assert((mid as int) * (mid as int) <= u128::MAX as int) by (nonlinear_arith)
            requires
                0 <= mid < 0x1_0000_0000_0000_0000,
        ;
        if mid * mid <= x {
            lo = mid;
        } else {
            hi = mid;
        }
    }
    lo
}

} // verus!
