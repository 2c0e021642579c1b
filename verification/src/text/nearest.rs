//! Keywords and the numbers they stand for.

use vstd::prelude::*;
use vstd::math::abs;
use crate::digits;
use crate::scalar::Scalar;
use crate::text::style::FontWidth;
use crate::text::weight::FontWeight;

verus! {

/// Powers of two around the number of units in `1.0`.
proof fn lemma_powers()
    ensures
        digits::two_pow(1019) > 0,
        digits::two_pow(1021) == 4 * digits::two_pow(1019),
        digits::two_pow(1022) == 8 * digits::two_pow(1019),
        digits::two_pow(1023) == 16 * digits::two_pow(1019),
        digits::two_pow(1029) == 0x400 * digits::two_pow(1019),
        digits::two_pow(1030) == 0x800 * digits::two_pow(1019),
        digits::two_pow(1031) == 0x1000 * digits::two_pow(1019),
        digits::two_pow(1074) == 0x80_0000_0000_0000 * digits::two_pow(1019),
{
    digits::lemma_two_pow_positive(1019);
    digits::lemma_two_pow_adds(2, 1019);
    digits::lemma_two_pow_adds(3, 1019);
    digits::lemma_two_pow_adds(4, 1019);
    digits::lemma_two_pow_adds(10, 1019);
    digits::lemma_two_pow_adds(11, 1019);
    digits::lemma_two_pow_adds(12, 1019);
    digits::lemma_two_pow_adds(55, 1019);
    assert(digits::two_pow(2) == 4 && digits::two_pow(3) == 8 && digits::two_pow(4) == 16) by {
        reveal_with_fuel(digits::two_pow, 5);
    }
    assert(digits::two_pow(10) == 0x400 && digits::two_pow(11) == 0x800 && digits::two_pow(12)
        == 0x1000) by {
        reveal_with_fuel(digits::two_pow, 13);
    }
    assert(digits::two_pow(55) == 0x80_0000_0000_0000) by {
        reveal_with_fuel(digits::two_pow, 56);
    }
}

/// The multiples that the weights stand for.
proof fn lemma_hundreds(w: FontWeight, n: u64, u: int)
    requires
        call_ensures(FontWeight::value, (w,), n),
    ensures
        ({
            ||| n == 100 && n * u == 100 * u
            ||| n == 200 && n * u == 200 * u
            ||| n == 300 && n * u == 300 * u
            ||| n == 400 && n * u == 400 * u
            ||| n == 500 && n * u == 500 * u
            ||| n == 600 && n * u == 600 * u
            ||| n == 700 && n * u == 700 * u
            ||| n == 800 && n * u == 800 * u
            ||| n == 900 && n * u == 900 * u
        }),
{
}

/// A number from its significand and scale.
proof fn lemma_value(a: Scalar, s: nat, k: nat, p: nat)
    requires
        a.significand() == s,
        a.scale() == k,
        digits::two_pow(k) == p * digits::two_pow(1019),
    ensures
        a.abs_units() == (s * p) * digits::two_pow(1019),
{
    let w = digits::two_pow(1019);
    assert(s * (p * w) == (s * p) * w) by (nonlinear_arith);
}

/// The bounds between the weights.
proof fn lemma_weight_bounds()
    ensures
        ({
            let u = digits::two_pow(1074);
            &&& (Scalar { bits: 0x4062_c000_0000_0000 }).units() == 150 * u
            &&& (Scalar { bits: 0x406f_4000_0000_0000 }).units() == 250 * u
            &&& (Scalar { bits: 0x4075_e000_0000_0000 }).units() == 350 * u
            &&& (Scalar { bits: 0x407c_2000_0000_0000 }).units() == 450 * u
            &&& (Scalar { bits: 0x4081_3000_0000_0000 }).units() == 550 * u
            &&& (Scalar { bits: 0x4084_5000_0000_0000 }).units() == 650 * u
            &&& (Scalar { bits: 0x4087_7000_0000_0000 }).units() == 750 * u
            &&& (Scalar { bits: 0x408a_9000_0000_0000 }).units() == 850 * u
        }),
{
    lemma_powers();
    lemma_value(Scalar { bits: 0x4062_c000_0000_0000 }, 0x12_c000_0000_0000, 1029, 0x400);
    lemma_value(Scalar { bits: 0x406f_4000_0000_0000 }, 0x1f_4000_0000_0000, 1029, 0x400);
    lemma_value(Scalar { bits: 0x4075_e000_0000_0000 }, 0x15_e000_0000_0000, 1030, 0x800);
    lemma_value(Scalar { bits: 0x407c_2000_0000_0000 }, 0x1c_2000_0000_0000, 1030, 0x800);
    lemma_value(Scalar { bits: 0x4081_3000_0000_0000 }, 0x11_3000_0000_0000, 1031, 0x1000);
    lemma_value(Scalar { bits: 0x4084_5000_0000_0000 }, 0x14_5000_0000_0000, 1031, 0x1000);
    lemma_value(Scalar { bits: 0x4087_7000_0000_0000 }, 0x17_7000_0000_0000, 1031, 0x1000);
    lemma_value(Scalar { bits: 0x408a_9000_0000_0000 }, 0x1a_9000_0000_0000, 1031, 0x1000);
}

/// The weight of a number is the nearest one: no other weight is closer to it.
pub proof fn law_weights_are_the_nearest(w: Scalar, r: FontWeight, n: u64, v: FontWeight, m: u64)
    requires
        call_ensures(FontWeight::from_value, (w,), r),
        call_ensures(FontWeight::value, (r,), n),
        call_ensures(FontWeight::value, (v,), m),
        w.finite(),
    ensures
        abs(w.units() - n * digits::two_pow(1074)) <= abs(w.units() - m * digits::two_pow(1074)),
        100 <= m <= 900,
        m % 100 == 0,
{
    lemma_weight_bounds();
    digits::lemma_two_pow_positive(1074);
    let u = digits::two_pow(1074) as int;
    lemma_hundreds(r, n, u);
    lemma_hundreds(v, m, u);
    assert(n == 100 ==> r is Thin);
}

/// The bounds between the widths, and the widths.
proof fn lemma_width_bounds()
    ensures
        ({
            let u = digits::two_pow(1074);
            &&& 16 * (Scalar { bits: 0x3fe2_0000_0000_0000 }).units() == 9 * u
            &&& 16 * (Scalar { bits: 0x3fe6_0000_0000_0000 }).units() == 11 * u
            &&& 16 * (Scalar { bits: 0x3fea_0000_0000_0000 }).units() == 13 * u
            &&& 16 * (Scalar { bits: 0x3fee_0000_0000_0000 }).units() == 15 * u
            &&& 16 * (Scalar { bits: 0x3ff1_0000_0000_0000 }).units() == 17 * u
            &&& 16 * (Scalar { bits: 0x3ff3_0000_0000_0000 }).units() == 19 * u
            &&& 16 * (Scalar { bits: 0x3ff6_0000_0000_0000 }).units() == 22 * u
            &&& 16 * (Scalar { bits: 0x3ffc_0000_0000_0000 }).units() == 28 * u
        }),
{
    lemma_powers();
    lemma_value(Scalar { bits: 0x3fe2_0000_0000_0000 }, 0x12_0000_0000_0000, 1021, 4);
    lemma_value(Scalar { bits: 0x3fe6_0000_0000_0000 }, 0x16_0000_0000_0000, 1021, 4);
    lemma_value(Scalar { bits: 0x3fea_0000_0000_0000 }, 0x1a_0000_0000_0000, 1021, 4);
    lemma_value(Scalar { bits: 0x3fee_0000_0000_0000 }, 0x1e_0000_0000_0000, 1021, 4);
    lemma_value(Scalar { bits: 0x3ff1_0000_0000_0000 }, 0x11_0000_0000_0000, 1022, 8);
    lemma_value(Scalar { bits: 0x3ff3_0000_0000_0000 }, 0x13_0000_0000_0000, 1022, 8);
    lemma_value(Scalar { bits: 0x3ff6_0000_0000_0000 }, 0x16_0000_0000_0000, 1022, 8);
    lemma_value(Scalar { bits: 0x3ffc_0000_0000_0000 }, 0x1c_0000_0000_0000, 1022, 8);
}

/// The widths in sixteenths of the normal one.
pub open spec fn sixteenths(w: FontWidth) -> int {
    match w {
        FontWidth::UltraCondensed => 8,
        FontWidth::ExtraCondensed => 10,
        FontWidth::Condensed => 12,
        FontWidth::SemiCondensed => 14,
        FontWidth::Normal => 16,
        FontWidth::SemiExpanded => 18,
        FontWidth::Expanded => 20,
        FontWidth::ExtraExpanded => 24,
        FontWidth::UltraExpanded => 32,
    }
}

/// Each width has its share of the normal one.
pub proof fn law_widths_are_shares_of_the_normal_one(w: FontWidth, r: Scalar)
    requires
        call_ensures(FontWidth::ratio, (w,), r),
    ensures
        r.finite(),
        16 * r.units() == sixteenths(w) * digits::two_pow(1074),
{
    lemma_powers();
    let (s, k, p): (nat, nat, nat) = match w {
        FontWidth::UltraCondensed => (0x10_0000_0000_0000, 1021, 4),
        FontWidth::ExtraCondensed => (0x14_0000_0000_0000, 1021, 4),
        FontWidth::Condensed => (0x18_0000_0000_0000, 1021, 4),
        FontWidth::SemiCondensed => (0x1c_0000_0000_0000, 1021, 4),
        FontWidth::Normal => (0x10_0000_0000_0000, 1022, 8),
        FontWidth::SemiExpanded => (0x12_0000_0000_0000, 1022, 8),
        FontWidth::Expanded => (0x14_0000_0000_0000, 1022, 8),
        FontWidth::ExtraExpanded => (0x18_0000_0000_0000, 1022, 8),
        FontWidth::UltraExpanded => (0x10_0000_0000_0000, 1023, 16),
    };
    lemma_value(r, s, k, p);
    let v = digits::two_pow(1019);
    let c = sixteenths(w);
    assert(16 * (s * p) == c * 0x80_0000_0000_0000);
    assert(16 * ((s * p) * v) == c * (0x80_0000_0000_0000 * v)) by (nonlinear_arith)
        requires
            16 * (s * p) == c * 0x80_0000_0000_0000,
    ;
}

/// The width of a ratio is the nearest one: no other width is closer to it.
pub proof fn law_widths_are_the_nearest(r: Scalar, w: FontWidth, v: FontWidth)
    requires
        call_ensures(FontWidth::from_ratio, (r,), w),
        r.finite(),
    ensures
        abs(16 * r.units() - sixteenths(w) * digits::two_pow(1074)) <= abs(
            16 * r.units() - sixteenths(v) * digits::two_pow(1074),
        ),
{
    lemma_width_bounds();
    digits::lemma_two_pow_positive(1074);
}

} // verus!
