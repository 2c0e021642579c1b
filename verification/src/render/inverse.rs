//! The transform that keeps gradients where they are.

use vstd::prelude::*;
use vstd::math::abs;
use crate::accuracy;
use crate::accuracy::{within, PARTS};
use crate::arith;
use crate::composition;
use crate::digits;
use crate::geometry::Transform;
use crate::laws;
use crate::render::raster;
use crate::render::raster::{determinant, one};
use crate::scalar;
use crate::scalar::{Scalar, FRACTION_RANGE};

verus! {

/// The number of units in `1.0`.
pub open spec fn unit() -> nat {
    digits::two_pow(1074)
}

proof fn lemma_opposite(a: Scalar)
    ensures
        a.negated().units() == -a.units(),
        a.negated().finite() == a.finite(),
{
    assert(a.negated().magnitude() == a.magnitude());
}

/// A rounded product times a number, near the exact product.
proof fn lemma_term(v: int, k: int, x: int, y: int)
    requires
        within((v * unit() - k * x) * PARTS, abs(k * x) + unit() * FRACTION_RANGE),
    ensures
        within(
            ((v * y) * unit() - k * x * y) * PARTS,
            abs(k) * abs(x) * abs(y) + unit() * FRACTION_RANGE * abs(y),
        ),
{
    let u = unit() as int;
    let p = PARTS as int;
    let f = FRACTION_RANGE as int;
    composition::lemma_abs_mul(k, x);
    let d = v * u - k * x;
    let kx = k * x;
    assert((v * y) * u - kx * y == d * y) by (nonlinear_arith)
        requires
            d == v * u - kx,
    ;
    let n = abs(y) as int;
    let b = abs(kx) + u * f;
    assert(within((d * y) * p, b * n)) by (nonlinear_arith)
        requires
            within(d * p, b),
            y == n || y == -n,
            n >= 0,
    ;
    let m = abs(kx) as int;
    assert((m + u * f) * n == m * n + u * f * n) by (nonlinear_arith);
}

/// The error of two products of three numbers.
pub open spec fn slack(k: int, x: int, y: int) -> int {
    2 * (abs(k) * abs(x) * abs(y)) + unit() * FRACTION_RANGE * abs(x) + unit() * FRACTION_RANGE * abs(
        y,
    )
}

/// Two rounded products that cancel out.
proof fn lemma_cancel(v: int, w: int, k: int, x: int, y: int)
    requires
        within((v * unit() - k * x) * PARTS, abs(k * x) + unit() * FRACTION_RANGE),
        within((w * unit() - (-k) * y) * PARTS, abs((-k) * y) + unit() * FRACTION_RANGE),
    ensures
        within(((v * y + w * x) * unit()) * PARTS, slack(k, x, y)),
{
    let u = unit() as int;
    let p = PARTS as int;
    lemma_term(v, k, x, y);
    lemma_term(w, -k, y, x);
    let a = (v * y) * u - k * x * y;
    let b = (w * x) * u - (-k) * y * x;
    assert(k * x * y + (-k) * y * x == 0) by (nonlinear_arith);
    assert((v * y + w * x) * u == (v * y) * u + (w * x) * u) by (nonlinear_arith);
    assert((v * y + w * x) * u == a + b);
    assert(((v * y + w * x) * u) * p == a * p + b * p) by (nonlinear_arith)
        requires
            (v * y + w * x) * u == a + b,
    ;
    let (m, n, q) = (abs(k), abs(x), abs(y));
    assert(m * q * n == m * n * q) by (nonlinear_arith);
    assert(abs(-k) == m);
}

/// Where the transform in effect can be undone, what undoes it takes its columns back to the
/// axes: the shares of one column along the other axis cancel out, up to rounding. The reciprocal
/// of the determinant is what its numbers are measured by.
pub proof fn law_gradients_are_taken_back(t: &Transform, r: Transform) -> (k: Scalar)
    requires
        call_ensures(raster::paint_transform, (t,), r),
        (Scalar { bits: raster::SINGULAR_BITS }).less(determinant(*t).absolute()),
        determinant(*t).finite(),
        r.a.finite(),
        r.b.finite(),
        r.c.finite(),
        r.d.finite(),
    ensures
        ({
            let d = determinant(*t).units();
            abs(k.units() * d - unit() * unit()) * PARTS <= unit() * unit() + abs(d)
                * FRACTION_RANGE
        }),
        within(
            ((r.a.units() * t.c.units() + r.c.units() * t.d.units()) * unit()) * PARTS,
            slack(k.units(), t.d.units(), t.c.units()),
        ),
        within(
            ((r.d.units() * t.b.units() + r.b.units() * t.a.units()) * unit()) * PARTS,
            slack(k.units(), t.a.units(), t.b.units()),
        ),
        within(
            (r.a.units() * unit() - k.units() * t.d.units()) * PARTS,
            abs(k.units() * t.d.units()) + unit() * FRACTION_RANGE,
        ),
        within(
            (r.d.units() * unit() - k.units() * t.a.units()) * PARTS,
            abs(k.units() * t.a.units()) + unit() * FRACTION_RANGE,
        ),
{
    let det = determinant(*t);
    let k = one().quotient(det);
    lemma_opposite(k);
    accuracy::law_product_error(k, t.d);
    accuracy::law_product_error(k.negated(), t.b);
    accuracy::law_product_error(k.negated(), t.c);
    accuracy::law_product_error(k, t.a);
    lemma_reciprocal(det);
    lemma_cancel(r.a.units(), r.c.units(), k.units(), t.d.units(), t.c.units());
    lemma_cancel(r.d.units(), r.b.units(), k.units(), t.a.units(), t.b.units());
    k
}

/// The reciprocal of a number.
proof fn lemma_reciprocal(d: Scalar)
    requires
        one().quotient(d).finite(),
        d.finite(),
        (Scalar { bits: raster::SINGULAR_BITS }).less(d.absolute()),
    ensures
        abs(one().quotient(d).units() * d.units() - unit() * unit()) * PARTS <= unit() * unit() + abs(
            d.units(),
        ) * FRACTION_RANGE,
{
    let k = one().quotient(d);
    assert(d.absolute().magnitude() == d.magnitude());
    let low = Scalar { bits: raster::SINGULAR_BITS };
    assert(low.units() >= 0);
    assert(d.abs_units() > 0);
    scalar::lemma_zero(d);
    laws::lemma_one();
    digits::lemma_two_pow_positive(1074);
    let u = unit();
    let n = u * u;
    let m = d.abs_units();
    assert(k.magnitude() == arith::nearest(n, m) && k.negative() == d.negative()) by {
        reveal(Scalar::quotient);
        scalar::lemma_zero(one());
        arith::lemma_nearest_range(n, m);
        laws::lemma_signed_magnitude(d.negative(), arith::nearest(n, m));
    }
    arith::lemma_fields(k);
    accuracy::lemma_nearest_error(n, m, k);
    let v = k.abs_units();
    assert(k.units() * d.units() == v * m) by (nonlinear_arith)
        requires
            (k.units() == v && d.units() == m) || (k.units() == -v && d.units() == -m),
    ;
}

} // verus!
