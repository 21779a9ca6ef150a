//! Saturating fixed-point arithmetic with 24 fractional bits.
//!
//! A scalar `q` stands for the real number `q / 16777216`, so `FP_ONE` is
//! one. Every stored scalar is kept inside `[-FP_LIM, FP_LIM]`; each
//! operation clamps its result back into that band, and products are
//! rescaled by 16777216 with rounding toward zero.

use vstd::prelude::*;

verus! {

/// One unit (the real number 1) in fixed-point steps.
pub const FP_ONE: i64 = 16777216;

/// Largest magnitude a stored scalar may take.
pub const FP_LIM: i64 = 0x8000_0000_0000;

pub open spec fn fp_in_range(x: int) -> bool {
    -FP_LIM <= x <= FP_LIM
}

/// Saturate into the representable band.
pub open spec fn fp_clamp(x: int) -> int {
    if x > FP_LIM {
        FP_LIM as int
    } else if x < -FP_LIM {
        -(FP_LIM as int)
    } else {
        x
    }
}

/// Remove the extra factor of 16777216 left by a product, rounding toward
/// zero.
pub open spec fn fp_scaled(x: int) -> int {
    if x >= 0 {
        x / 16777216
    } else {
        -((-x) / 16777216)
    }
}

pub open spec fn fp_add(a: int, b: int) -> int {
    fp_clamp(a + b)
}

pub open spec fn fp_sub(a: int, b: int) -> int {
    fp_clamp(a - b)
}

pub open spec fn fp_mul(a: int, b: int) -> int {
    fp_clamp(fp_scaled(a * b))
}

/// Piecewise-linear logistic on the nonnegative half-axis: ten chords of the
/// curve `1 / (1 + e^-x)` between breakpoints at 0, 1/2, 1, 3/2, 2, 5/2, 3,
/// 4, 5, 13/2 and 8 units, then a plateau one step below one.
pub open spec fn sig_pos(x: int) -> int {
    if x < 8388608 {
        8388608 + fp_mul(x, 4109054)
    } else if x < 16777216 {
        10443135 + fp_mul(x - 8388608, 3643986)
    } else if x < 25165824 {
        12265128 + fp_mul(x - 16777216, 2902992)
    } else if x < 33554432 {
        13716624 + fp_mul(x - 25165824, 2121398)
    } else if x < 41943040 {
        14777323 + fp_mul(x - 33554432, 1454408)
    } else if x < 50331648 {
        15504527 + fp_mul(x - 41943040, 954030)
    } else if x < 67108864 {
        15981542 + fp_mul(x - 50331648, 493915)
    } else if x < 83886080 {
        16475457 + fp_mul(x - 67108864, 189472)
    } else if x < 109051904 {
        16664929 + fp_mul(x - 83886080, 58067)
    } else if x < 134217728 {
        16752030 + fp_mul(x - 109051904, 13040)
    } else {
        16777215
    }
}

/// Sigmoid activation, symmetric about (0, one half) and strictly inside
/// (0, one).
pub open spec fn fp_sigmoid(x: int) -> int {
    if x >= 0 {
        sig_pos(x)
    } else {
        16777216 - sig_pos(-x)
    }
}

/// Slope of the sigmoid expressed in terms of an already-activated value `y`:
/// `(1 - y) * y`.
pub open spec fn fp_dsig(y: int) -> int {
    fp_mul(16777216 - y, y)
}

/// Per-unit squared error between an expected and an actual output value.
pub open spec fn fp_sq_err(e: int, v: int) -> int {
    fp_mul(fp_sub(e, v), fp_sub(e, v))
}

pub proof fn lemma_sig_pos_range(x: int)
    requires
        x >= 0,
    ensures
        8388608 <= sig_pos(x) <= 16777215,
{
}

/// The sigmoid stays strictly between zero and one.
pub proof fn lemma_sigmoid_range(x: int)
    ensures
        0 < fp_sigmoid(x) < 16777216,
{
    if x >= 0 {
        lemma_sig_pos_range(x);
    } else {
        lemma_sig_pos_range(-x);
    }
}

/// A squared error is never negative.
pub proof fn lemma_sq_err_nonneg(e: int, v: int)
    ensures
        0 <= fp_sq_err(e, v),
{
    let d = fp_sub(e, v);
    assert(d * d >= 0) by (nonlinear_arith);
}

pub(crate) fn add_fp(a: i64, b: i64) -> (r: i64)
    ensures
        r == fp_add(a as int, b as int),
        fp_in_range(r as int),
{
    let s: i128 = a as i128 + b as i128;
    if s > FP_LIM as i128 {
        FP_LIM
    } else if s < -(FP_LIM as i128) {
        -FP_LIM
    } else {
        s as i64
    }
}

pub(crate) fn sub_fp(a: i64, b: i64) -> (r: i64)
    ensures
        r == fp_sub(a as int, b as int),
        fp_in_range(r as int),
{
    let s: i128 = a as i128 - b as i128;
    if s > FP_LIM as i128 {
        FP_LIM
    } else if s < -(FP_LIM as i128) {
        -FP_LIM
    } else {
        s as i64
    }
}

pub(crate) fn mul_fp(a: i64, b: i64) -> (r: i64)
    ensures
        r == fp_mul(a as int, b as int),
        fp_in_range(r as int),
{
    proof {
        assert((a as int) * (b as int) <= 0x4000_0000_0000_0000_0000_0000_0000_0000
            && (a as int) * (b as int) >= -0x4000_0000_0000_0000_0000_0000_0000_0000)
            by (nonlinear_arith)
            requires
                -0x8000_0000_0000_0000 <= a as int <= 0x7FFF_FFFF_FFFF_FFFF,
                -0x8000_0000_0000_0000 <= b as int <= 0x7FFF_FFFF_FFFF_FFFF,
        ;
    }
    let p: i128 = (a as i128) * (b as i128);
    let q: i128 = if p >= 0 {
        ((p as u128) / 16777216) as i128
    } else {
        -((((-p) as u128) / 16777216) as i128)
    };
    if q > FP_LIM as i128 {
        FP_LIM
    } else if q < -(FP_LIM as i128) {
        -FP_LIM
    } else {
        q as i64
    }
}

fn sig_half(m: i64) -> (r: i64)
    requires
        m >= 0,
    ensures
        r == sig_pos(m as int),
        8388608 <= r <= 16777215,
{
    if m < 8388608 {
        8388608 + mul_fp(m, 4109054)
    } else if m < 16777216 {
        10443135 + mul_fp(m - 8388608, 3643986)
    } else if m < 25165824 {
        12265128 + mul_fp(m - 16777216, 2902992)
    } else if m < 33554432 {
        13716624 + mul_fp(m - 25165824, 2121398)
    } else if m < 41943040 {
        14777323 + mul_fp(m - 33554432, 1454408)
    } else if m < 50331648 {
        15504527 + mul_fp(m - 41943040, 954030)
    } else if m < 67108864 {
        15981542 + mul_fp(m - 50331648, 493915)
    } else if m < 83886080 {
        16475457 + mul_fp(m - 67108864, 189472)
    } else if m < 109051904 {
        16664929 + mul_fp(m - 83886080, 58067)
    } else if m < 134217728 {
        16752030 + mul_fp(m - 109051904, 13040)
    } else {
        16777215
    }
}

pub(crate) fn sigm(x: i64) -> (r: i64)
    ensures
        r == fp_sigmoid(x as int),
        0 < r < 16777216,
{
    if x >= 0 {
        sig_half(x)
    } else if x <= -134217728 {
        1
    } else {
        16777216 - sig_half(-x)
    }
}

pub(crate) fn dsigm(y: i64) -> (r: i64)
    requires
        fp_in_range(y as int),
    ensures
        r == fp_dsig(y as int),
        fp_in_range(r as int),
{
    mul_fp(FP_ONE - y, y)
}

pub(crate) fn err(exp: i64, res: i64) -> (r: i64)
    ensures
        r == fp_sq_err(exp as int, res as int),
        0 <= r,
        fp_in_range(r as int),
{
    proof {
        lemma_sq_err_nonneg(exp as int, res as int);
    }
    let d: i64 = sub_fp(exp, res);
    mul_fp(d, d)
}

} // verus!
