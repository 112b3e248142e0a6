//! Fixed-point scalar arithmetic underlying all transform math.
//!
//! Matrix entries are 16.16 fixed-point numbers stored in `i64`; animation
//! values (translations, quaternion components, scales, morph weights) use
//! the same encoding. Every operation here has an exact integer
//! specification, including the rounding of divisions toward zero.

use vstd::prelude::*;

verus! {

use vstd::arithmetic::div_mod::{lemma_div_is_ordered, lemma_div_multiples_vanish};

/// Number of fixed-point units in one whole coordinate unit (16.16 encoding).
pub const FX_ONE: i64 = 65536;

/// Largest magnitude a matrix entry may hold. Keeping entries within this
/// bound keeps every four-term dot product of a matrix multiplication inside
/// the `i128` range.
pub const ENTRY_LIMIT: i64 = 0x4000_0000_0000_0000;

/// Largest magnitude accepted for animation values and transform components.
pub const VAL_LIMIT: i64 = 0x100_0000_0000;

/// Integer division rounding toward zero, the semantics of Rust's `/`.
pub open spec fn tdiv(a: int, b: int) -> int {
    if a >= 0 {
        a / b
    } else {
        -((-a) / b)
    }
}

/// Clamp a mathematical integer into the admissible matrix-entry range.
pub open spec fn clamp_entry(v: int) -> int {
    if v < -(ENTRY_LIMIT as int) {
        -(ENTRY_LIMIT as int)
    } else if v > ENTRY_LIMIT as int {
        ENTRY_LIMIT as int
    } else {
        v
    }
}

/// Exact linear interpolation from `a` to `b` at the rational point
/// `num / den`, rounded toward zero.
pub open spec fn lerp(a: int, b: int, num: int, den: int) -> int {
    a + tdiv((b - a) * num, den)
}

/// The quotient of a division toward zero never exceeds the dividend's
/// magnitude scaled by `num / den` when `0 <= num <= den`.
proof fn lemma_tdiv_scaled_bounded(d: int, num: int, den: int)
    requires
        0 < den,
        0 <= num <= den,
    ensures
        d >= 0 ==> 0 <= tdiv(d * num, den) <= d,
        d < 0 ==> d <= tdiv(d * num, den) <= 0,
{
    vstd::arithmetic::div_mod::lemma_div_basics(den);
    if d >= 0 {
        assert(0 <= d * num && d * num <= den * d) by (nonlinear_arith)
            requires
                0 <= d,
                0 <= num <= den,
        ;
        lemma_div_is_ordered(0, d * num, den);
        lemma_div_is_ordered(d * num, den * d, den);
        lemma_div_multiples_vanish(d, den);
    } else {
        let m = -d;
        assert(0 <= m * num && m * num <= den * m) by (nonlinear_arith)
            requires
                0 <= m,
                0 <= num <= den,
        ;
        lemma_div_is_ordered(0, m * num, den);
        lemma_div_is_ordered(m * num, den * m, den);
        lemma_div_multiples_vanish(m, den);
        assert(-(d * num) == m * num) by (nonlinear_arith)
            requires
                m == -d,
        ;
    }
}

/// Exact quotient of `a` by the positive divisor `b`, rounded toward zero.
pub fn div_trunc(a: i128, b: i128) -> (r: i128)
    requires
        b > 0,
        a > i128::MIN,
    ensures
        r == tdiv(a as int, b as int),
        a >= 0 ==> 0 <= r <= a,
        a < 0 ==> a <= r <= 0,
{
    if a >= 0 {
        let q = (a as u128) / (b as u128);
        assert(q <= a as u128) by {
            lemma_div_is_ordered(0, a as int, b as int);
            vstd::arithmetic::div_mod::lemma_div_nonincreasing(a as int, b as int);
        }
        q as i128
    } else {
        let m = (-a) as u128;
        let q = m / (b as u128);
        assert(q <= m) by {
            lemma_div_is_ordered(0, m as int, b as int);
            vstd::arithmetic::div_mod::lemma_div_nonincreasing(m as int, b as int);
        }
        -(q as i128)
    }
}

/// Clamp a wide intermediate value into the admissible matrix-entry range.
pub fn clamp_to_entry(v: i128) -> (r: i64)
    ensures
        r as int == clamp_entry(v as int),
{
    if v < -(ENTRY_LIMIT as i128) {
        -ENTRY_LIMIT
    } else if v > ENTRY_LIMIT as i128 {
        ENTRY_LIMIT
    } else {
        v as i64
    }
}

/// Linear interpolation between two fixed-point values at `num / den`.
/// The result always lies between the two endpoints.
pub fn lerp_i64(a: i64, b: i64, num: u32, den: u32) -> (r: i64)
    requires
        0 < den,
        num <= den,
    ensures
        r as int == lerp(a as int, b as int, num as int, den as int),
        a <= b ==> a <= r <= b,
        b <= a ==> b <= r <= a,
{
    let d: i128 = (b as i128) - (a as i128);
    assert((d * (num as i128)) < 0x10_0000_0000_0000_0000_0000_0000i128 && (d * (num as i128))
        > -0x10_0000_0000_0000_0000_0000_0000i128) by (nonlinear_arith)
        requires
            -0x2_0000_0000_0000_0000i128 < d < 0x2_0000_0000_0000_0000i128,
            0 <= (num as i128) < 0x2_0000_0000i128,
    ;
    let p: i128 = d * (num as i128);
    let q: i128 = div_trunc(p, den as i128);
    proof {
        lemma_tdiv_scaled_bounded(d as int, num as int, den as int);
    }
    ((a as i128) + q) as i64
}

} // verus!
