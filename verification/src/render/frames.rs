//! How images lie in their frames.

use vstd::prelude::*;
use vstd::math::abs;
use crate::accuracy;
use crate::accuracy::{within, PARTS};
use crate::arith;
use crate::digits;
use crate::geometry::TWO_BITS;
use crate::render::bitmap;
use crate::render::placement as texts;
use crate::render::raster;
use crate::scalar;
use crate::scalar::{Scalar, FRACTION_RANGE};
use crate::scene::ObjectFit;

verus! {

/// The number of units in `1.0`.
pub open spec fn unit() -> nat {
    digits::two_pow(1074)
}

/// The side of a frame: at least 1, and not beyond all measure.
pub open spec fn is_side(f: Scalar) -> bool {
    f.finite() && unit() <= f.units() && f.units() <= digits::two_pow(2000)
}

/// The side of an image: a number of pixels.
pub open spec fn is_pixels(i: Scalar) -> bool {
    i.finite() && unit() <= i.units() && i.units() <= 0x1_0000_0000 * unit()
}

proof fn lemma_powers()
    ensures
        unit() >= 0x1_0000_0000_0000 * FRACTION_RANGE,
        unit() > 0,
{
    digits::lemma_two_pow_adds(48, 52);
    digits::lemma_two_pow_monotone(100, 1074);
    digits::lemma_two_pow_positive(1074);
    arith::lemma_two_pow_53();
    assert(digits::two_pow(48) == 0x1_0000_0000_0000) by {
        reveal_with_fuel(digits::two_pow, 49);
    }
}

/// The scale at which a side of an image is that of its frame.
proof fn lemma_scale(f: Scalar, i: Scalar)
    requires
        is_side(f),
        is_pixels(i),
    ensures
        f.quotient(i).finite(),
        f.quotient(i).units() >= 0,
        abs(f.quotient(i).units() * i.units() - f.units() * unit()) * PARTS <= 2 * (f.units()
            * unit()),
{
    lemma_powers();
    let u = unit();
    let e = digits::two_pow(2000);
    let (x, y) = (f.units(), i.units());
    assert(f.abs_units() * u <= y * e) by (nonlinear_arith)
        requires
            f.abs_units() <= e,
            u <= y,
            u >= 0,
    ;
    accuracy::law_quotients_stay_finite(f, i, 2000);
    accuracy::law_quotient_error(f, i);
    assert(y * FRACTION_RANGE <= x * u) by (nonlinear_arith)
        requires
            y <= 0x1_0000_0000 * u,
            0x1_0000_0000_0000 * FRACTION_RANGE <= u,
            u <= x,
    ;
    let q = f.quotient(i).units();
    assert(q >= 0) by {
        if q < 0 {
            assert(q * y <= 0) by (nonlinear_arith)
                requires
                    q < 0,
                    y > 0,
            ;
            assert(x * u > 0) by (nonlinear_arith)
                requires
                    x > 0,
                    u > 0,
            ;
        }
    }
}

/// A scaled side is the product, up to rounding.
proof fn lemma_scaled(i: Scalar, s: Scalar)
    requires
        is_pixels(i),
        s.units() >= 0,
        i.product(s).finite(),
    ensures
        abs(i.product(s).units() * unit() - i.units() * s.units()) * PARTS <= i.units() * s.units()
            + unit() * FRACTION_RANGE,
{
    accuracy::law_product_error(i, s);
    let n = i.units() * s.units();
    assert(n >= 0) by (nonlinear_arith)
        requires
            n == i.units() * s.units(),
            i.units() >= 0,
            s.units() >= 0,
    ;
}

/// Both errors together: the scaled side against the side of the frame.
proof fn lemma_against(w: int, i: int, s: int, q: int, f: int, u: int)
    requires
        u > 0,
        i > 0,
        f >= u,
        s >= 0,
        u >= 0x1_0000_0000_0000 * FRACTION_RANGE,
        abs(q * i - f * u) * PARTS <= 2 * (f * u),
        abs(w * u - i * s) * PARTS <= i * s + u * FRACTION_RANGE,
    ensures
        s <= q ==> (w - f) * PARTS <= 8 * f,
        s >= q ==> (f - w) * PARTS <= 8 * f,
{
    let p = PARTS as int;
    let k = FRACTION_RANGE as int;
    let fu = f * u;
    let qi = q * i;
    let is = i * s;
    let wu = w * u;
    assert(u * k <= fu) by (nonlinear_arith)
        requires
            k <= u,
            u <= f,
            fu == f * u,
            u > 0,
            k >= 0,
    ;
    if s <= q {
        assert(is <= qi) by (nonlinear_arith)
            requires
                s <= q,
                i > 0,
                is == i * s,
                qi == q * i,
        ;
        assert((wu - fu) * p <= 8 * fu);
        assert((w - f) * p <= 8 * f) by (nonlinear_arith)
            requires
                (wu - fu) * p <= 8 * fu,
                wu == w * u,
                fu == f * u,
                u > 0,
        ;
    }
    if s >= q {
        assert(is >= qi) by (nonlinear_arith)
            requires
                s >= q,
                i > 0,
                is == i * s,
                qi == q * i,
        ;
        assert((fu - wu) * p <= 8 * fu);
        assert((f - w) * p <= 8 * f) by (nonlinear_arith)
            requires
                (fu - wu) * p <= 8 * fu,
                wu == w * u,
                fu == f * u,
                u > 0,
        ;
    }
}

/// A side is at most that of the frame, up to eight parts in `2^53`.
pub open spec fn fits(side: Scalar, frame: Scalar) -> bool {
    (side.units() - frame.units()) * PARTS <= 8 * frame.units()
}

/// A side is at least that of the frame, up to eight parts in `2^53`.
pub open spec fn covers(side: Scalar, frame: Scalar) -> bool {
    (frame.units() - side.units()) * PARTS <= 8 * frame.units()
}

/// An image that is contained lies within its frame and touches it on two sides; one that covers
/// its frame leaves nothing of it free and touches it on two sides; one that fills its frame takes
/// its size, and one in its original size keeps that.
pub proof fn law_images_fit_their_frames(
    fit: ObjectFit,
    fw: Scalar,
    fh: Scalar,
    iw: Scalar,
    ih: Scalar,
)
    requires
        is_side(fw),
        is_side(fh),
        is_pixels(iw),
        is_pixels(ih),
        bitmap::placement(fit, fw, fh, iw, ih).width.finite(),
        bitmap::placement(fit, fw, fh, iw, ih).height.finite(),
    ensures
        ({
            let at = bitmap::placement(fit, fw, fh, iw, ih);
            let (w, h) = (at.width, at.height);
            match fit {
                ObjectFit::Contain => {
                    &&& fits(w, fw)
                    &&& fits(h, fh)
                    &&& covers(w, fw) || covers(h, fh)
                },
                ObjectFit::Cover => {
                    &&& covers(w, fw)
                    &&& covers(h, fh)
                    &&& fits(w, fw) || fits(h, fh)
                },
                ObjectFit::Fill => w == fw && h == fh,
                ObjectFit::Original => w == iw && h == ih,
            }
        }),
{
    if fit == ObjectFit::Contain || fit == ObjectFit::Cover {
        lemma_powers();
        lemma_scale(fw, iw);
        lemma_scale(fh, ih);
        let across = fw.quotient(iw);
        let down = fh.quotient(ih);
        let s = if fit == ObjectFit::Cover {
            across.greatest(down)
        } else {
            across.least(down)
        };
        lemma_scaled(iw, s);
        lemma_scaled(ih, s);
        let at = bitmap::placement(fit, fw, fh, iw, ih);
        let u = unit() as int;
        lemma_against(
            at.width.units(),
            iw.units(),
            s.units(),
            across.units(),
            fw.units(),
            u,
        );
        lemma_against(
            at.height.units(),
            ih.units(),
            s.units(),
            down.units(),
            fh.units(),
            u,
        );
    }
}

/// An image that is contained or covers its frame keeps its proportions.
pub proof fn law_images_keep_their_proportions(
    fit: ObjectFit,
    fw: Scalar,
    fh: Scalar,
    iw: Scalar,
    ih: Scalar,
)
    requires
        fit == ObjectFit::Contain || fit == ObjectFit::Cover,
        is_side(fw),
        is_side(fh),
        is_pixels(iw),
        is_pixels(ih),
        bitmap::placement(fit, fw, fh, iw, ih).width.finite(),
        bitmap::placement(fit, fw, fh, iw, ih).height.finite(),
    ensures
        ({
            let at = bitmap::placement(fit, fw, fh, iw, ih);
            let (w, h) = (at.width.units(), at.height.units());
            let (x, y) = (iw.units(), ih.units());
            abs(w * y - h * x) * PARTS <= 4 * (w * y + h * x) + 4 * PARTS * (x + y)
        }),
{
    lemma_powers();
    lemma_scale(fw, iw);
    lemma_scale(fh, ih);
    let across = fw.quotient(iw);
    let down = fh.quotient(ih);
    let s = if fit == ObjectFit::Cover {
        across.greatest(down)
    } else {
        across.least(down)
    };
    lemma_scaled(iw, s);
    lemma_scaled(ih, s);
    let at = bitmap::placement(fit, fw, fh, iw, ih);
    lemma_ratio(
        at.width.units(),
        at.height.units(),
        iw.units(),
        ih.units(),
        s.units(),
        unit() as int,
    );
}

proof fn lemma_ratio(w: int, h: int, x: int, y: int, s: int, u: int)
    requires
        u > 0,
        x > 0,
        y > 0,
        s >= 0,
        abs(w * u - x * s) * PARTS <= x * s + u * FRACTION_RANGE,
        abs(h * u - y * s) * PARTS <= y * s + u * FRACTION_RANGE,
    ensures
        abs(w * y - h * x) * PARTS <= 4 * (w * y + h * x) + 4 * PARTS * (x + y),
{
    let p = PARTS as int;
    let k = FRACTION_RANGE as int;
    let (xs, ys) = (x * s, y * s);
    let a = w * u - xs;
    let b = h * u - ys;
    let uk = u * k;
    assert(xs >= 0 && ys >= 0) by (nonlinear_arith)
        requires
            xs == x * s,
            ys == y * s,
            x > 0,
            y > 0,
            s >= 0,
    ;
    // The exact size is at most twice the rounded one, and a bit.
    assert(xs <= 2 * (w * u) + uk && ys <= 2 * (h * u) + uk);
    let d = w * y - h * x;
    assert(d * u == a * y - b * x) by (nonlinear_arith)
        requires
            d == w * y - h * x,
            a == w * u - xs,
            b == h * u - ys,
            xs == x * s,
            ys == y * s,
    ;
    let (wy, hx) = (w * y, h * x);
    assert(within((a * p) * y, (2 * (wy * u) + 2 * (uk * y)))) by (nonlinear_arith)
        requires
            within(a * p, 2 * (w * u) + 2 * uk),
            y > 0,
            wy == w * y,
    ;
    assert(within((b * p) * x, (2 * (hx * u) + 2 * (uk * x)))) by (nonlinear_arith)
        requires
            within(b * p, 2 * (h * u) + 2 * uk),
            x > 0,
            hx == h * x,
    ;
    let (ay, bx, du) = (a * y, b * x, d * u);
    assert((d * p) * u == du * p) by (nonlinear_arith)
        requires
            du == d * u,
    ;
    assert((a * p) * y == ay * p) by (nonlinear_arith)
        requires
            ay == a * y,
    ;
    assert((b * p) * x == bx * p) by (nonlinear_arith)
        requires
            bx == b * x,
    ;
    assert((d * p) * u == (a * p) * y - (b * p) * x);
    let z = 2 * (wy + hx) + 2 * (k * (x + y));
    assert(within((d * p) * u, z * u)) by {
        assert(z * u == 2 * (wy * u) + 2 * (hx * u) + 2 * (uk * y) + 2 * (uk * x))
            by (nonlinear_arith)
            requires
                z == 2 * (wy + hx) + 2 * (k * (x + y)),
                uk == u * k,
        ;
    }
    assert(within(d * p, z)) by (nonlinear_arith)
        requires
            within((d * p) * u, z * u),
            u > 0,
    ;
    assert(2 * (k * (x + y)) == p * (x + y)) by (nonlinear_arith)
        requires
            p == 2 * k,
    ;
    assert(p * (x + y) >= 0) by (nonlinear_arith)
        requires
            p > 0,
            x > 0,
            y > 0,
    ;
    assert(4 * PARTS * (x + y) == 4 * (p * (x + y))) by (nonlinear_arith)
        requires
            p == PARTS,
    ;
    assert(wy + hx >= -(p * (x + y))) by {
        assert(2 * (w * u) + uk >= 0 && 2 * (h * u) + uk >= 0);
        assert(2 * wy + k * y >= 0) by (nonlinear_arith)
            requires
                2 * (w * u) + uk >= 0,
                uk == u * k,
                wy == w * y,
                u > 0,
                y > 0,
        ;
        assert(2 * hx + k * x >= 0) by (nonlinear_arith)
            requires
                2 * (h * u) + uk >= 0,
                uk == u * k,
                hx == h * x,
                u > 0,
                x > 0,
        ;
        assert(k * y + k * x == k * (x + y)) by (nonlinear_arith);
    }
}

/// An image that is contained or covers its frame lies in its middle: what it leaves free, or
/// what is cut off, is the same on both sides, up to rounding.
pub proof fn law_images_lie_in_the_middle(
    fit: ObjectFit,
    fw: Scalar,
    fh: Scalar,
    iw: Scalar,
    ih: Scalar,
)
    requires
        fw.finite(),
        fh.finite(),
        bitmap::placement(fit, fw, fh, iw, ih).x.finite(),
        bitmap::placement(fit, fw, fh, iw, ih).y.finite(),
    ensures
        ({
            let at = bitmap::placement(fit, fw, fh, iw, ih);
            let (w, h) = (at.width.units(), at.height.units());
            if fit == ObjectFit::Contain || fit == ObjectFit::Cover {
                &&& abs(2 * at.x.units() + w - fw.units()) * PARTS <= 3 * abs(fw.units() - w)
                    + 2 * PARTS
                &&& abs(2 * at.y.units() + h - fh.units()) * PARTS <= 3 * abs(fh.units() - h)
                    + 2 * PARTS
            } else {
                at.x.units() == 0 && at.y.units() == 0
            }
        }),
{
    scalar::lemma_zero(raster::zero());
    if fit == ObjectFit::Contain || fit == ObjectFit::Cover {
        let at = bitmap::placement(fit, fw, fh, iw, ih);
        lemma_middle(fw, at.width);
        lemma_middle(fh, at.height);
    }
}

proof fn lemma_middle(f: Scalar, w: Scalar)
    requires
        f.difference(w).quotient(Scalar { bits: TWO_BITS }).finite(),
    ensures
        abs(
            2 * f.difference(w).quotient(Scalar { bits: TWO_BITS }).units() + w.units() - f.units(),
        ) * PARTS <= 3 * abs(f.units() - w.units()) + 2 * PARTS,
{
    let two = Scalar { bits: TWO_BITS };
    let back = w.negated();
    assert(back.magnitude() == w.magnitude() && back.units() == -w.units());
    texts::lemma_two();
    lemma_powers();
    let d = f.difference(w);
    accuracy::law_quotient_error(d, two);
    accuracy::law_sum_error(f, back);
    let u = unit() as int;
    let x = d.quotient(two).units();
    let v = d.units();
    let n = d.abs_units() as int;
    assert(within((2 * x - v) * PARTS, n + 2 * FRACTION_RANGE)) by (nonlinear_arith)
        requires
            within((x * (2 * u) - v * u) * PARTS, n * u + (2 * u) * FRACTION_RANGE),
            u > 0,
    ;
}

} // verus!
