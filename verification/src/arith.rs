//! Saturating integer arithmetic with exact contracts.

use vstd::prelude::*;

verus! {

/// `v` held between `lo` and `hi`.
pub open spec fn clamp(v: int, lo: int, hi: int) -> int {
    if v < lo {
        lo
    } else if v > hi {
        hi
    } else {
        v
    }
}

/// `u32::saturating_mul`.
pub fn sat_mul_u32(a: u32, b: u32) -> (r: u32)
    ensures
        r == clamp(a * b, 0, u32::MAX as int),
{
    match a.checked_mul(b) {
        Some(v) => v,
        None => u32::MAX,
    }
}

/// `u64::saturating_mul`.
pub fn sat_mul_u64(a: u64, b: u64) -> (r: u64)
    ensures
        r == clamp(a * b, 0, u64::MAX as int),
{
    match a.checked_mul(b) {
        Some(v) => v,
        None => u64::MAX,
    }
}

/// `u128::saturating_mul`.
pub fn sat_mul_u128(a: u128, b: u128) -> (r: u128)
    ensures
        r == clamp(a * b, 0, u128::MAX as int),
{
    match a.checked_mul(b) {
        Some(v) => v,
        None => u128::MAX,
    }
}

/// `i32::saturating_sub`.
pub fn sat_sub_i32(a: i32, b: i32) -> (r: i32)
    ensures
        r == clamp(a - b, i32::MIN as int, i32::MAX as int),
{
    match a.checked_sub(b) {
        Some(v) => v,
        None => if b < 0 {
            i32::MAX
        } else {
            i32::MIN
        },
    }
}

/// `i64::saturating_add`.
pub fn sat_add_i64(a: i64, b: i64) -> (r: i64)
    ensures
        r == clamp(a + b, i64::MIN as int, i64::MAX as int),
{
    match a.checked_add(b) {
        Some(v) => v,
        None => if b < 0 {
            i64::MIN
        } else {
            i64::MAX
        },
    }
}

/// `i128::saturating_add`.
pub fn sat_add_i128(a: i128, b: i128) -> (r: i128)
    ensures
        r == clamp(a + b, i128::MIN as int, i128::MAX as int),
{
    match a.checked_add(b) {
        Some(v) => v,
        None => if b < 0 {
            i128::MIN
        } else {
            i128::MAX
        },
    }
}

/// The sign of a product: it is non-negative exactly when the factors agree in sign.
pub proof fn lemma_product_sign(a: int, b: int)
    ensures
        (a >= 0) == (b >= 0) ==> a * b >= 0,
        (a >= 0) != (b >= 0) ==> a * b <= 0,
{
    if a >= 0 && b >= 0 {
        assert(a * b >= 0) by (nonlinear_arith)
            requires
                a >= 0,
                b >= 0,
        ;
    } else if a < 0 && b < 0 {
        assert(a * b >= 0) by (nonlinear_arith)
            requires
                a < 0,
                b < 0,
        ;
    } else if a >= 0 {
        assert(a * b <= 0) by (nonlinear_arith)
            requires
                a >= 0,
                b < 0,
        ;
    } else {
        assert(a * b <= 0) by (nonlinear_arith)
            requires
                a < 0,
                b >= 0,
        ;
    }
}

/// `i64::saturating_mul`.
pub fn sat_mul_i64(a: i64, b: i64) -> (r: i64)
    ensures
        r == clamp(a * b, i64::MIN as int, i64::MAX as int),
{
    proof {
        lemma_product_sign(a as int, b as int);
    }
    match a.checked_mul(b) {
        Some(v) => v,
        None => if (a < 0) == (b < 0) {
            i64::MAX
        } else {
            i64::MIN
        },
    }
}

/// `i128::saturating_mul`.
pub fn sat_mul_i128(a: i128, b: i128) -> (r: i128)
    ensures
        r == clamp(a * b, i128::MIN as int, i128::MAX as int),
{
    proof {
        lemma_product_sign(a as int, b as int);
    }
    match a.checked_mul(b) {
        Some(v) => v,
        None => if (a < 0) == (b < 0) {
            i128::MAX
        } else {
            i128::MIN
        },
    }
}

/// Division rounding toward zero, as Rust's signed `/` does.
pub open spec fn trunc_div(n: int, d: int) -> int
    recommends
        d > 0,
{
    if n >= 0 {
        n / d
    } else {
        -((-n) / d)
    }
}

/// Rounding toward zero never moves a quotient further from zero than the numerator.
pub proof fn lemma_trunc_div_bound(n: int, d: int)
    requires
        d >= 1,
    ensures
        -n <= trunc_div(n, d) <= n || n <= trunc_div(n, d) <= -n,
        n >= 0 ==> 0 <= trunc_div(n, d) <= n,
        n < 0 ==> n <= trunc_div(n, d) <= 0,
{
    if n >= 0 {
        assert(0 <= n / d <= n) by (nonlinear_arith)
            requires
                n >= 0,
                d >= 1,
        ;
    } else {
        let m = -n;
        assert(0 <= m / d <= m) by (nonlinear_arith)
            requires
                m >= 0,
                d >= 1,
        ;
    }
}

/// `i128::saturating_div` by a positive divisor: a quotient rounded toward zero.
pub fn sat_div_i128(a: i128, d: i128) -> (r: i128)
    requires
        d > 0,
    ensures
        r == trunc_div(a as int, d as int),
{
    proof {
        lemma_trunc_div_bound(a as int, d as int);
    }
    match a.checked_div(d) {
        Some(v) => v,
        None => 0,
    }
}

} // verus!
