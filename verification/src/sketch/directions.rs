//! Where the lines of a fill run.

use vstd::prelude::*;
use vstd::math::abs;
use crate::accuracy;
use crate::accuracy::{within, PARTS};
use crate::digits;
use crate::scalar::{Scalar, FRACTION_RANGE};
use crate::sketch::fill;
use crate::sketch::fill::{family_angles, RADIANS_BITS, RIGHT_ANGLE_BITS};
use crate::style::{SketchFill, SketchFillStyle};

verus! {

/// `10^16`.
pub const DECIMALS: u64 = 10_000_000_000_000_000;

/// Half a turn in parts of `10^-16`.
pub const HALF_TURN_DECIMALS: u64 = 31_415_926_535_897_932;

/// The number of units in `1.0`.
spec fn unit() -> nat {
    digits::two_pow(1074)
}

/// The numbers of radians in a degree and of degrees in a right angle.
proof fn lemma_constants()
    ensures
        (Scalar { bits: RADIANS_BITS }).finite(),
        (Scalar { bits: RADIANS_BITS }).units() > 0,
        (Scalar { bits: RIGHT_ANGLE_BITS }).finite(),
        (Scalar { bits: RIGHT_ANGLE_BITS }).units() == 90 * unit(),
        within(
            ((Scalar { bits: RADIANS_BITS }).units() * 180 * DECIMALS - HALF_TURN_DECIMALS * unit())
                * PARTS,
            (HALF_TURN_DECIMALS * unit()) as int,
        ),
        100 * (Scalar { bits: RADIANS_BITS }).units() <= 2 * unit(),
{
    let r = Scalar { bits: RADIANS_BITS };
    let q = Scalar { bits: RIGHT_ANGLE_BITS };
    let w = digits::two_pow(1016);
    digits::lemma_two_pow_positive(1016);
    digits::lemma_two_pow_adds(58, 1016);
    digits::lemma_two_pow_adds(12, 1016);
    assert(digits::two_pow(58) == 0x400_0000_0000_0000 && digits::two_pow(12) == 0x1000) by {
        reveal_with_fuel(digits::two_pow, 59);
    }
    assert(r.scale() == 1016 && r.significand() == 0x11_df46_a252_9d39);
    assert(q.scale() == 1028 && q.significand() == 0x16_8000_0000_0000);
    assert(0x16_8000_0000_0000 * (0x1000 * w) == 0x1_6800_0000_0000_0000 * w)
        by (nonlinear_arith);
}

/// An angle of a size at which no sum is rounded to infinity.
pub open spec fn ordinary(a: Scalar) -> bool {
    a.finite() && a.abs_units() <= digits::two_pow(2090)
}

/// Degrees in radians, up to one part in `2^51` and half of the smallest number.
proof fn lemma_radians(a: Scalar)
    requires
        a.finite(),
        a.abs_units() <= digits::two_pow(2092),
    ensures
        a.product(Scalar { bits: RADIANS_BITS }).finite(),
        within(
            (a.product(Scalar { bits: RADIANS_BITS }).units() * 180 * DECIMALS - a.units()
                * HALF_TURN_DECIMALS) * PARTS,
            4 * a.abs_units() * HALF_TURN_DECIMALS + 180 * DECIMALS * FRACTION_RANGE,
        ),
{
    let rad = Scalar { bits: RADIANS_BITS };
    let u = unit();
    let r = rad.units();
    let v = a.units();
    let n = a.abs_units();
    let e = digits::two_pow(2092);
    let h = HALF_TURN_DECIMALS as int;
    lemma_constants();
    digits::lemma_two_pow_positive(1074);
    assert(abs(v * r) == n * r) by (nonlinear_arith)
        requires
            v == n || v == -n,
            r > 0,
            n >= 0,
    ;
    assert(n * r <= u * e) by (nonlinear_arith)
        requires
            n <= e,
            0 < r <= u,
            n >= 0,
    ;
    accuracy::law_products_stay_finite(a, rad, 2092);
    accuracy::law_product_error(a, rad);
    let x = a.product(rad).units();
    let d1 = x * u - v * r;
    let d2 = r * 180 * DECIMALS - h * u;
    let p = PARTS as int;
    let k = FRACTION_RANGE as int;
    let c = 180 * DECIMALS as int;
    assert(r * 180 * DECIMALS == r * c) by (nonlinear_arith)
        requires
            c == 180 * DECIMALS,
    ;
    assert(x * 180 * DECIMALS == x * c) by (nonlinear_arith)
        requires
            c == 180 * DECIMALS,
    ;
    let g = x * c - v * h;
    assert(g * u == d1 * c + v * d2) by (nonlinear_arith)
        requires
            g == x * c - v * h,
            d1 == x * u - v * r,
            d2 == r * c - h * u,
    ;
    assert(within(d1 * p * c, (n * r + u * k) * c)) by (nonlinear_arith)
        requires
            within(d1 * p, n * r + u * k),
            c > 0,
    ;
    assert(within(v * (d2 * p), n * (h * u))) by (nonlinear_arith)
        requires
            within(d2 * p, h * u),
            v == n || v == -n,
            n >= 0,
    ;
    assert(r * c <= 2 * (h * u)) by {
        assert(d2 * p <= h * u);
        assert(d2 <= h * u) by (nonlinear_arith)
            requires
                d2 * p <= h * u,
                p >= 1,
                h * u >= 0,
        ;
    }
    assert((n * r + u * k) * c == n * (r * c) + u * (k * c)) by (nonlinear_arith);
    assert(n * (r * c) <= 2 * (n * (h * u))) by (nonlinear_arith)
        requires
            r * c <= 2 * (h * u),
            n >= 0,
    ;
    assert((g * p) * u == d1 * p * c + v * (d2 * p)) by (nonlinear_arith)
        requires
            g * u == d1 * c + v * d2,
    ;
    let b = 4 * n * h + c * k;
    assert(n * (h * u) >= 0) by (nonlinear_arith)
        requires
            n >= 0,
            h >= 0,
            u >= 0,
    ;
    assert(b * u == 4 * (n * (h * u)) + u * (k * c)) by (nonlinear_arith)
        requires
            b == 4 * n * h + c * k,
    ;
    assert(within(g * p, b)) by (nonlinear_arith)
        requires
            within((g * p) * u, b * u),
            u > 0,
    ;
}

/// The first family of lines of every fill that has strokes runs at its angle, `angle / 180`
/// times half a turn, up to one part in `2^51` and half of the smallest number.
pub proof fn law_lines_run_at_the_angle(f: &SketchFill, angles: Vec<Scalar>)
    requires
        call_ensures(fill::stroke_angles, (f,), angles),
        ordinary(f.angle),
        f.style != SketchFillStyle::Dots,
    ensures
        angles@.len() >= 1,
        angles@[0].finite(),
        within(
            (angles@[0].units() * 180 * DECIMALS - f.angle.units() * HALF_TURN_DECIMALS)
                * PARTS,
            4 * f.angle.abs_units() * HALF_TURN_DECIMALS + 180 * DECIMALS * FRACTION_RANGE,
        ),
{
    digits::lemma_two_pow_monotone(2090, 2092);
    lemma_radians(f.angle);
}

/// The two families of a cross-hatch are a quarter turn apart, up to rounding: their angles
/// differ by half of pi, within one part in `2^53` of the angle in degrees and six more.
pub proof fn law_cross_hatches_cross(f: &SketchFill, angles: Vec<Scalar>)
    requires
        call_ensures(fill::stroke_angles, (f,), angles),
        ordinary(f.angle),
        f.style == SketchFillStyle::CrossHatch,
    ensures
        angles@.len() == 2,
        angles@[1].finite(),
        within(
            ((angles@[1].units() - angles@[0].units()) * 2 * DECIMALS
                - HALF_TURN_DECIMALS * digits::two_pow(1074)) * PARTS,
            (f.angle.abs_units() + 6 * digits::two_pow(1074)) * HALF_TURN_DECIMALS,
        ),
{
    let q = Scalar { bits: RIGHT_ANGLE_BITS };
    let a = f.angle;
    let u = unit();
    let h = HALF_TURN_DECIMALS as int;
    lemma_constants();
    digits::lemma_two_pow_monotone(2090, 2092);
    digits::lemma_two_pow_monotone(1081, 2090);
    digits::lemma_two_pow_adds(7, 1074);
    assert(digits::two_pow(7) == 128) by {
        reveal_with_fuel(digits::two_pow, 8);
    }
    digits::lemma_two_pow_adds(2, 2090);
    assert(digits::two_pow(2) == 4) by {
        reveal_with_fuel(digits::two_pow, 3);
    }
    digits::lemma_two_pow_positive(2090);
    accuracy::law_sums_stay_finite(a, q, 2092);
    accuracy::law_sum_error(a, q);
    let s = a.sum(q);
    lemma_radians(a);
    lemma_radians(s);
    let x = family_angles(*f)[0].units();
    let y = family_angles(*f)[1].units();
    assert(family_angles(*f)[1] == s.product(Scalar { bits: RADIANS_BITS }));
    let p = PARTS as int;
    let c = 180 * DECIMALS as int;
    let (v, t) = (a.units(), s.units());
    let (n, m) = (a.abs_units() as int, s.abs_units() as int);
    let gx = x * c - v * h;
    let gy = y * c - t * h;
    let d = t - (v + 90 * u);
    let k = c * FRACTION_RANGE;
    assert(x * 180 * DECIMALS == x * c && y * 180 * DECIMALS == y * c) by (nonlinear_arith)
        requires
            c == 180 * DECIMALS,
    ;
    assert(within(d * p, n + 90 * u));
    assert(m <= 2 * n + 91 * u) by {
        assert(m == abs(t));
    }
    let g = (y - x) * c - (90 * u) * h;
    assert(g == gy - gx + d * h) by (nonlinear_arith)
        requires
            g == (y - x) * c - (90 * u) * h,
            gx == x * c - v * h,
            gy == y * c - t * h,
            d == t - (v + 90 * u),
    ;
    lemma_small();
    lemma_quarter(x, y, n, m, u as int, gx, gy, d);
}

proof fn lemma_small()
    ensures
        180 * DECIMALS * FRACTION_RANGE <= digits::two_pow(1074),
{
    digits::lemma_two_pow_monotone(120, 1074);
    digits::lemma_two_pow_adds(60, 60);
    assert(digits::two_pow(60) == 0x1000_0000_0000_0000) by {
        reveal_with_fuel(digits::two_pow, 61);
    }
}

/// The errors of the two angles and of the sum, put together.
proof fn lemma_quarter(x: int, y: int, n: int, m: int, u: int, gx: int, gy: int, d: int)
    requires
        n >= 0,
        0 <= m <= 2 * n + 91 * u,
        180 * DECIMALS * FRACTION_RANGE <= u,
        (y - x) * (180 * DECIMALS) - (90 * u) * HALF_TURN_DECIMALS == gy - gx + d
            * HALF_TURN_DECIMALS,
        within(gx * PARTS, 4 * n * HALF_TURN_DECIMALS + 180 * DECIMALS * FRACTION_RANGE),
        within(gy * PARTS, 4 * m * HALF_TURN_DECIMALS + 180 * DECIMALS * FRACTION_RANGE),
        within(d * PARTS, n + 90 * u),
    ensures
        within(
            ((y - x) * 2 * DECIMALS - HALF_TURN_DECIMALS * u) * PARTS,
            (n + 6 * u) * HALF_TURN_DECIMALS,
        ),
{
    let h: int = 31_415_926_535_897_932;
    let p: int = 0x20_0000_0000_0000;
    let k: int = 180int * 10_000_000_000_000_000 * 0x10_0000_0000_0000;
    let z = (y - x) * 2 * 10_000_000_000_000_000 - h * u;
    let zp = z * p;
    let (nh, mh, uh) = (n * h, m * h, u * h);
    assert(within(gx * p, 4 * nh + k));
    assert(within(gy * p, 4 * mh + k));
    let c = 180 * DECIMALS as int;
    assert(c == 1_800_000_000_000_000_000);
    assert((y - x) * c == (y - x) * 1_800_000_000_000_000_000);
    assert(90 * z == gy - gx + d * h);
    assert(90 * zp == gy * p - gx * p + (d * p) * h);
    assert(within((d * p) * h, nh + 90 * uh));
    assert(mh <= 2 * nh + 91 * uh);
    assert(k <= uh);
    assert(within(90 * zp, 13 * nh + 456 * uh));
    assert(within(zp, nh + 6 * uh));
}

/// Hachures and zigzags have one family of lines, dots have none.
pub proof fn law_other_fills_run_one_way(f: &SketchFill, angles: Vec<Scalar>)
    requires
        call_ensures(fill::stroke_angles, (f,), angles),
        f.style != SketchFillStyle::CrossHatch,
    ensures
        angles@.len() == if f.style == SketchFillStyle::Dots {
            0int
        } else {
            1
        },
{
}

} // verus!
