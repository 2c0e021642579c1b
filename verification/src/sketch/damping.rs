//! How the damping of jitter falls with the length of a line.

use vstd::prelude::*;
use crate::arith;
use crate::digits;
use crate::laws;
use crate::scalar;
use crate::scalar::{Scalar, ONE_BITS};
use crate::sketch::rough::{
    damping, DAMPED_BITS, DAMPING_SLOPE_BITS, DAMPING_START_BITS, LONG_BITS, SHORT_BITS,
};

verus! {

/// The bit pattern of the longest line up to 500 that gets at least two fifths of the jitter,
/// about `499.9604`.
pub const NEARLY_LONG_BITS: u64 = 0x407f_3f5d_cfb6_4724;

/// The bit pattern of `0.25`.
pub const QUARTER_BITS: u64 = 0x3fd0_0000_0000_0000;

/// The bit pattern of what the longest of these lines loses, about `0.833334`.
pub const LOSS_BITS: u64 = 0x3fea_aaac_1094_a2b9;

/// The share that a line up to 500 long loses against a start of about 1.23.
pub open spec fn loss(len: Scalar) -> Scalar {
    Scalar { bits: DAMPING_SLOPE_BITS }.product(len)
}

/// The unit of the slope, to which the other numbers are multiples.
spec fn grain() -> nat {
    digits::two_pow(1012)
}

proof fn lemma_grain()
    ensures
        grain() > 0,
        digits::two_pow(1020) == 0x100 * grain(),
        digits::two_pow(1021) == 0x200 * grain(),
        digits::two_pow(1022) == 0x400 * grain(),
        digits::two_pow(1029) == 0x2_0000 * grain(),
        digits::two_pow(1030) == 0x4_0000 * grain(),
        digits::two_pow(1074) == 0x4000_0000_0000_0000 * grain(),
{
    digits::lemma_two_pow_positive(1012);
    digits::lemma_two_pow_adds(8, 1012);
    digits::lemma_two_pow_adds(9, 1012);
    digits::lemma_two_pow_adds(10, 1012);
    digits::lemma_two_pow_adds(17, 1012);
    digits::lemma_two_pow_adds(18, 1012);
    digits::lemma_two_pow_adds(62, 1012);
    reveal_with_fuel(digits::two_pow, 63);
}

/// The constants as multiples of the unit.
proof fn lemma_constants()
    ensures
        (Scalar { bits: DAMPING_SLOPE_BITS }).abs_units() == 0x1b_4f10_df4b_5492 * grain(),
        (Scalar { bits: DAMPING_START_BITS }).units() == 0x4eee_f1ba_c2df_0c00 * grain(),
        (Scalar { bits: DAMPED_BITS }).units() == 0x1999_9999_9999_9a00 * grain(),
        (Scalar { bits: ONE_BITS }).units() == 0x4000_0000_0000_0000 * grain(),
        (Scalar { bits: QUARTER_BITS }).abs_units() == 0x1000_0000_0000_0000 * grain(),
        (Scalar { bits: LOSS_BITS }).abs_units() == 0x3555_5821_2945_7200 * grain(),
        (Scalar { bits: SHORT_BITS }).units() == 0x32_0000_0000_0000_0000 * grain(),
        (Scalar { bits: LONG_BITS }).units() == 0x7d_0000_0000_0000_0000 * grain(),
        (Scalar { bits: NEARLY_LONG_BITS }).units() == 0x7c_fd77_3ed9_1c90_0000 * grain(),
{
    lemma_grain();
    lemma_scaled(Scalar { bits: DAMPING_SLOPE_BITS }, 0x1b_4f10_df4b_5492, 1);
    lemma_scaled(Scalar { bits: DAMPING_START_BITS }, 0x13_bbbc_6eb0_b7c3, 0x400);
    lemma_scaled(Scalar { bits: DAMPED_BITS }, 0x19_9999_9999_999a, 0x100);
    lemma_scaled(Scalar { bits: ONE_BITS }, 0x10_0000_0000_0000, 0x400);
    lemma_scaled(Scalar { bits: QUARTER_BITS }, 0x10_0000_0000_0000, 0x100);
    lemma_scaled(Scalar { bits: LOSS_BITS }, 0x1a_aaac_1094_a2b9, 0x200);
    lemma_scaled(Scalar { bits: SHORT_BITS }, 0x19_0000_0000_0000, 0x2_0000);
    lemma_scaled(Scalar { bits: LONG_BITS }, 0x1f_4000_0000_0000, 0x4_0000);
    lemma_scaled(Scalar { bits: NEARLY_LONG_BITS }, 0x1f_3f5d_cfb6_4724, 0x4_0000);
}

/// A number as a multiple of the unit.
proof fn lemma_scaled(a: Scalar, s: nat, c: nat)
    requires
        a.significand() == s,
        digits::two_pow(a.scale()) == c * grain(),
    ensures
        a.abs_units() == (s * c) * grain(),
{
    let w = grain();
    assert(s * (c * w) == (s * c) * w) by (nonlinear_arith);
}

/// A value below the middle of two integers does not round up to the greater.
proof fn lemma_rounds_down(a: nat, b: nat, q: nat)
    requires
        b > 0,
        2 * a < (2 * q + 1) * b,
    ensures
        scalar::half_even(a, b) <= q,
{
    let s = a / b;
    let r = a % b;
    vstd::arithmetic::div_mod::lemma_fundamental_div_mod(a as int, b as int);
    assert(s < q || (s == q && 2 * r < b)) by (nonlinear_arith)
        requires
            a == b * s + r,
            0 <= r < b,
            2 * a < (2 * q + 1) * b,
    ;
}

/// The loss is the exact product, rounded.
proof fn lemma_loss(len: Scalar)
    requires
        len.finite(),
        !len.negative(),
    ensures
        loss(len).negative(),
        loss(len).magnitude() == arith::nearest(
            (Scalar { bits: DAMPING_SLOPE_BITS }).abs_units() * len.abs_units(),
            digits::two_pow(1074),
        ),
{
    reveal(Scalar::product);
    arith::lemma_nearest_range(
        (Scalar { bits: DAMPING_SLOPE_BITS }).abs_units() * len.abs_units(),
        digits::two_pow(1074),
    );
}

/// A longer line loses more.
proof fn lemma_loss_grows(a: Scalar, b: Scalar)
    requires
        a.finite(),
        b.finite(),
        !a.negative(),
        !b.negative(),
        a.units() <= b.units(),
    ensures
        loss(b).units() <= loss(a).units(),
        loss(a).magnitude() <= loss(b).magnitude(),
{
    let s = (Scalar { bits: DAMPING_SLOPE_BITS }).abs_units();
    let u = digits::two_pow(1074);
    digits::lemma_two_pow_positive(1074);
    lemma_loss(a);
    lemma_loss(b);
    let x = a.abs_units();
    let y = b.abs_units();
    assert((s * x) * u <= (s * y) * u) by (nonlinear_arith)
        requires
            x <= y,
    ;
    laws::law_rounding_is_monotone(s * x, u, s * y, u);
    laws::lemma_order(loss(a), loss(b));
}

/// A line of 200 loses at least a quarter.
proof fn lemma_loss_from_short(len: Scalar)
    requires
        len.finite(),
        !len.negative(),
        (Scalar { bits: SHORT_BITS }).units() <= len.units(),
    ensures
        (Scalar { bits: QUARTER_BITS }).abs_units() <= loss(len).abs_units(),
{
    lemma_grain();
    lemma_constants();
    let q = Scalar { bits: QUARTER_BITS };
    let w = grain();
    let u = digits::two_pow(1074);
    let n = (Scalar { bits: DAMPING_SLOPE_BITS }).abs_units() * len.abs_units();
    assert(q.abs_units() * u <= n) by (nonlinear_arith)
        requires
            q.abs_units() == 0x1000_0000_0000_0000 * w,
            u == 0x4000_0000_0000_0000 * w,
            n == (0x1b_4f10_df4b_5492 * w) * len.abs_units(),
            len.abs_units() >= 0x32_0000_0000_0000_0000 * w,
            w > 0,
    ;
    laws::law_rounding_keeps_numbers(q, 1);
    assert(q.abs_units() * 1 == q.abs_units() && n * 1 == n);
    laws::law_rounding_is_monotone(q.abs_units(), 1, n, u);
    lemma_loss(len);
    laws::lemma_order(q, loss(len));
}

/// What the longest line with two fifths of the jitter loses.
proof fn lemma_loss_of_nearly_long()
    ensures
        loss(Scalar { bits: NEARLY_LONG_BITS }).magnitude() <= LOSS_BITS,
{
    lemma_grain();
    lemma_constants();
    let len = Scalar { bits: NEARLY_LONG_BITS };
    let w = grain();
    let u = digits::two_pow(1074);
    let n = (Scalar { bits: DAMPING_SLOPE_BITS }).abs_units() * len.abs_units();
    let v = w * w;
    assert(n == 0xd55_5608_4a51_5cb4_711d_e361_8a20_0000 * v) by (nonlinear_arith)
        requires
            n == (0x1b_4f10_df4b_5492 * w) * (0x7c_fd77_3ed9_1c90_0000 * w),
            v == w * w,
    ;
    let p = digits::two_pow(1021);
    assert(u * p == 0x80_0000_0000_0000_0000 * v) by (nonlinear_arith)
        requires
            u == 0x4000_0000_0000_0000 * w,
            p == 0x200 * w,
            v == w * w,
    ;
    assert(v > 0) by (nonlinear_arith)
        requires
            v == w * w,
            w > 0,
    ;
    digits::lemma_two_pow_adds(53, 1021);
    digits::lemma_two_pow_adds(52, 1021);
    arith::lemma_two_pow_53();
    assert(u * (0x20_0000_0000_0000 * p) == 0x20_0000_0000_0000 * (u * p)) by (nonlinear_arith);
    assert(u * (0x10_0000_0000_0000 * p) == 0x10_0000_0000_0000 * (u * p)) by (nonlinear_arith);
    assert((2 * 0x1a_aaac_1094_a2b9 + 1) * (u * p) == 0x35_5558_2129_4573 * (u * p));
    arith::lemma_binade(n, u, 1021);
    lemma_rounds_down(n, u * p, 0x1a_aaac_1094_a2b9);
    lemma_loss(len);
}

/// What is left of the start of about 1.23.
proof fn lemma_damped(len: Scalar)
    requires
        len.finite(),
        !len.less(Scalar { bits: SHORT_BITS }),
        !(Scalar { bits: LONG_BITS }).less(len),
    ensures
        !len.negative(),
        loss(len).finite(),
        !damping(len).nan(),
        damping(len) == loss(len).sum(Scalar { bits: DAMPING_START_BITS }),
        damping(len).units() <= (Scalar { bits: ONE_BITS }).units(),
{
    lemma_grain();
    lemma_constants();
    let long = Scalar { bits: LONG_BITS };
    let start = Scalar { bits: DAMPING_START_BITS };
    let one = Scalar { bits: ONE_BITS };
    let quarter = Scalar { bits: QUARTER_BITS };
    lemma_loss_from_short(len);
    lemma_loss(len);
    // A line of at most 500 loses at most the whole.
    let s = (Scalar { bits: DAMPING_SLOPE_BITS }).abs_units();
    let u = digits::two_pow(1074);
    let w = grain();
    let n = s * len.abs_units();
    assert(n <= one.abs_units() * u) by (nonlinear_arith)
        requires
            n == (0x1b_4f10_df4b_5492 * w) * len.abs_units(),
            len.abs_units() <= 0x7d_0000_0000_0000_0000 * w,
            one.abs_units() == 0x4000_0000_0000_0000 * w,
            u == 0x4000_0000_0000_0000 * w,
            w > 0,
    ;
    laws::law_rounding_keeps_numbers(one, 1);
    assert(one.abs_units() * 1 == one.abs_units() && n * 1 == n);
    laws::law_rounding_is_monotone(n, u, one.abs_units(), 1);
    // The sum with the loss of a quarter is below the whole.
    let e = loss(len).units() + start.units();
    laws::lemma_sum_value(loss(len), start);
    assert(e <= one.units());
    if e > 0 {
        laws::law_rounding_is_monotone(e as nat, 1, one.abs_units(), 1);
        laws::lemma_order(damping(len), one);
    }
}

/// The share of the jitter falls with the length: a longer line never gets more than a shorter
/// one, save for a line between about 499.96 and 500 against one above 500.
pub proof fn law_damping_falls(a: Scalar, b: Scalar)
    requires
        !a.nan(),
        !b.nan(),
        !b.less(a),
        !((Scalar { bits: NEARLY_LONG_BITS }).less(a) && !(Scalar { bits: LONG_BITS }).less(a)
            && (Scalar { bits: LONG_BITS }).less(b)),
    ensures
        !damping(a).nan(),
        !damping(b).nan(),
        !damping(a).less(damping(b)),
{
    law_damping_is_bounded(a);
    law_damping_is_bounded(b);
    let short = Scalar { bits: SHORT_BITS };
    let long = Scalar { bits: LONG_BITS };
    if !a.less(short) && !long.less(b) {
        lemma_held(a);
        lemma_held(b);
        lemma_damped(a);
        lemma_damped(b);
        lemma_loss_grows(a, b);
        laws::law_sums_keep_order(loss(b), loss(a), Scalar { bits: DAMPING_START_BITS });
    }
}

/// A number between two finite ones is finite.
proof fn lemma_held(a: Scalar)
    requires
        !a.nan(),
        !a.less(Scalar { bits: SHORT_BITS }),
        !(Scalar { bits: LONG_BITS }).less(a),
    ensures
        a.finite(),
{
    lemma_constants();
    lemma_grain();
    let long = Scalar { bits: LONG_BITS };
    if !a.finite() {
        scalar::lemma_magnitude_order(long, a);
    }
}

/// The share of the jitter is at most the whole, and at least two fifths save for a line
/// between about 499.96 and 500.
pub proof fn law_damping_is_bounded(len: Scalar)
    requires
        !len.nan(),
    ensures
        !damping(len).nan(),
        !(Scalar { bits: ONE_BITS }).less(damping(len)),
        !(Scalar { bits: NEARLY_LONG_BITS }).less(len) || (Scalar { bits: LONG_BITS }).less(len)
            ==> !damping(len).less(Scalar { bits: DAMPED_BITS }),
{
    lemma_constants();
    lemma_grain();
    let short = Scalar { bits: SHORT_BITS };
    let long = Scalar { bits: LONG_BITS };
    let near = Scalar { bits: NEARLY_LONG_BITS };
    let start = Scalar { bits: DAMPING_START_BITS };
    let damped = Scalar { bits: DAMPED_BITS };
    if !len.less(short) && !long.less(len) {
        lemma_held(len);
        lemma_damped(len);
        if !near.less(len) {
            let most = Scalar { bits: LOSS_BITS };
            lemma_loss_grows(len, near);
            lemma_loss_of_nearly_long();
            laws::lemma_order(loss(len), most);
            lemma_loss(len);
            laws::law_sums_keep_lower_bounds(loss(len), start, damped);
        }
    }
}

} // verus!
