//! How near the curves of an arc are to the ellipse.
//!
//! One curve stands for each part of an arc. It starts and ends on the ellipse, in the directions
//! of its tangents, and its middle is on the ellipse again.

use vstd::prelude::*;
use vstd::math::abs;
use crate::accuracy;
use crate::accuracy::PARTS;
use crate::arith;
use crate::composition;
use crate::composition::{least, near, unit};
use crate::digits;
use crate::geometry::{Point, Vec2};
use crate::laws;
use crate::path::PathEl;
use crate::path2d;
use crate::path2d::{arc_along, arc_at, arc_curve, PathState, FOUR_THIRDS_BITS};
use crate::scalar::{Scalar, FRACTION_RANGE};

verus! {

/// The opposite of a number near another.
proof fn lemma_near_opposite(a: Scalar, k: nat, x: int, s: nat, c: nat, t: nat)
    requires
        near(a.units(), k, x, s, c, t),
    ensures
        near(a.negated().units(), k, -x, s, c, t),
        a.negated().finite() == a.finite(),
{
    let b = a.negated();
    assert(b.magnitude() == a.magnitude() && b.units() == -a.units());
    let v = a.units();
    assert((-v) * k - (-x) == -(v * k - x)) by (nonlinear_arith);
}

/// A larger bound of the error.
proof fn lemma_near_looser(v: int, k: nat, x: int, s: nat, c: nat, t: nat, c2: nat, t2: nat)
    requires
        near(v, k, x, s, c, t),
        c <= c2,
        t <= t2,
    ensures
        near(v, k, x, s, c2, t2),
{
    composition::lemma_near_weaker(v, k, x, s, c, t, c2);
}

/// The product of three numbers.
pub open spec fn triple(r: Scalar, d: Scalar, g: Scalar) -> Scalar {
    r.product(d).product(g)
}

/// The smallest numbers that products of three numbers may lose.
spec fn dust(g: Scalar) -> nat {
    unit() * least() + 2 * (least() * abs(g.units()))
}

proof fn lemma_triple(r: Scalar, d: Scalar, g: Scalar)
    requires
        triple(r, d, g).finite(),
    ensures
        r.finite(),
        d.finite(),
        g.finite(),
        near(
            triple(r, d, g).units(),
            unit() * unit(),
            r.units() * d.units() * g.units(),
            abs(r.units()) * abs(d.units()) * abs(g.units()),
            4,
            dust(g),
        ),
{
    accuracy::law_product_error(r.product(d), g);
    accuracy::law_product_error(r, d);
    composition::lemma_near_self(r.units());
    composition::lemma_near_product(r, d, 1, r.units(), abs(r.units()), 0, 0);
    assert(1 * unit() == unit() && 1 * least() == least() && 0 * abs(d.units()) == 0);
    composition::lemma_near_product(
        r.product(d),
        g,
        unit(),
        r.units() * d.units(),
        abs(r.units()) * abs(d.units()),
        2,
        least(),
    );
}

/// The sum of a number and two products.
proof fn lemma_place(c: Scalar, p: Scalar, q: Scalar, x: (int, int), s: (nat, nat), t: (nat, nat))
    requires
        c.sum(p).sum(q).finite(),
        near(p.units(), unit() * unit(), x.0, s.0, 4, t.0),
        near(q.units(), unit() * unit(), x.1, s.1, 4, t.1),
    ensures
        near(
            c.sum(p).sum(q).units(),
            unit() * unit(),
            c.units() * (unit() * unit()) + x.0 + x.1,
            abs(c.units()) * (unit() * unit()) + s.0 + s.1,
            8,
            4 * t.0 + 2 * t.1,
        ),
{
    let u2 = unit() * unit();
    accuracy::law_sum_error(c.sum(p), q);
    accuracy::law_sum_error(c, p);
    composition::lemma_near_self(c.units());
    composition::lemma_near_scaled(c.units(), 1, c.units(), abs(c.units()), 0, 0, u2);
    assert(1 * u2 == u2 && 0 * u2 == 0);
    composition::lemma_near_weaker(
        c.units(),
        u2,
        c.units() * u2,
        abs(c.units()) * u2,
        0,
        0,
        4,
    );
    composition::lemma_near_sum(
        c,
        p,
        u2,
        (c.units() * u2, x.0),
        (abs(c.units()) * u2, s.0),
        4,
        (0, t.0),
    );
    composition::lemma_near_weaker(q.units(), u2, x.1, s.1, 4, t.1, 6);
    composition::lemma_near_sum(
        c.sum(p),
        q,
        u2,
        (c.units() * u2 + x.0, x.1),
        (abs(c.units()) * u2 + s.0, s.1),
        6,
        (2 * (0 + t.0), t.1),
    );
}

/// Radii, a direction and a turn of ordinary size: cosines and sines are at most 1.
pub open spec fn is_direction(d: Vec2) -> bool {
    d.x.finite() && d.y.finite() && d.x.abs_units() <= unit() && d.y.abs_units() <= unit()
}

/// A coordinate of an ellipse about the origin with radii `r`, in units to the third power: that
/// of its point in direction `d`, where its axes are turned so that they have the shares `g`.
#[verifier::opaque]
pub open spec fn turned(r: (int, int), d: (int, int), g: (int, int)) -> int {
    r.0 * d.0 * g.0 + r.1 * d.1 * g.1
}

/// What the error of a coordinate is measured by.
pub open spec fn extent(c: Scalar, rx: Scalar, ry: Scalar) -> nat {
    abs(c.units()) + abs(rx.units()) + abs(ry.units())
}

/// The absolute part of the errors.
spec fn grit() -> nat {
    24 * (unit() * least())
}

proof fn lemma_dust(g: Scalar)
    requires
        g.abs_units() <= unit(),
    ensures
        dust(g) <= 3 * (unit() * least()),
{
    let u = unit();
    let l = least();
    let n = abs(g.units());
    assert(l * n <= u * l) by (nonlinear_arith)
        requires
            n <= u,
            l >= 0,
    ;
}

/// A product of three numbers of which two are at most 1.
proof fn lemma_share(r: int, d: int, g: int, u: nat)
    requires
        abs(d) <= u,
        abs(g) <= u,
    ensures
        abs(r) * abs(d) * abs(g) <= abs(r) * (u * u),
{
    let (x, y, z) = (abs(r), abs(d), abs(g));
    assert(y * z <= u * u) by (nonlinear_arith)
        requires
            y <= u,
            z <= u,
    ;
    assert(x * y * z == x * (y * z)) by (nonlinear_arith);
    assert(x * (y * z) <= x * (u * u)) by (nonlinear_arith)
        requires
            y * z <= u * u,
            x >= 0,
    ;
}

/// A larger bound of the terms.
proof fn lemma_near_wider(v: int, k: nat, x: int, s: nat, c: nat, t: nat, s2: nat)
    requires
        near(v, k, x, s, c, t),
        s <= s2,
    ensures
        near(v, k, x, s2, c, t),
{
    assert(c * s <= c * s2) by (nonlinear_arith)
        requires
            s <= s2,
            c >= 0,
    ;
}

/// A number, or its opposite.
pub open spec fn opposite_if(a: Scalar, minus: bool) -> Scalar {
    if minus {
        a.negated()
    } else {
        a
    }
}

/// The opposite of an integer, or the integer.
pub open spec fn minus_if(x: int, minus: bool) -> int {
    if minus {
        -x
    } else {
        x
    }
}

/// One term of a coordinate.
proof fn lemma_term(r: Scalar, d: Scalar, g: Scalar, minus: bool)
    requires
        opposite_if(triple(r, d, g), minus).finite(),
        d.abs_units() <= unit(),
        g.abs_units() <= unit(),
    ensures
        near(
            opposite_if(triple(r, d, g), minus).units(),
            unit() * unit(),
            r.units() * d.units() * minus_if(g.units(), minus),
            abs(r.units()) * (unit() * unit()),
            4,
            3 * (unit() * least()),
        ),
{
    let u2 = unit() * unit();
    let q = triple(r, d, g);
    assert(q.negated().magnitude() == q.magnitude());
    lemma_triple(r, d, g);
    lemma_dust(g);
    lemma_share(r.units(), d.units(), g.units(), unit());
    let rd = r.units() * d.units();
    let x = rd * g.units();
    let s = abs(r.units()) * abs(d.units()) * abs(g.units());
    let t = abs(r.units()) * u2;
    lemma_near_wider(q.units(), u2, x, s, 4, dust(g), t);
    lemma_near_looser(q.units(), u2, x, t, 4, dust(g), 4, 3 * (unit() * least()));
    if minus {
        lemma_near_opposite(q, u2, x, t, 4, 3 * (unit() * least()));
        let h = g.units();
        assert(rd * (-h) == -(rd * h)) by (nonlinear_arith);
    }
}

/// A coordinate of a point of the ellipse, near the exact one.
proof fn lemma_point(
    c: Scalar,
    r: (Scalar, Scalar),
    d: (Scalar, Scalar),
    g: (Scalar, Scalar),
    minus: bool,
)
    requires
        c.sum(triple(r.0, d.0, g.0)).sum(opposite_if(triple(r.1, d.1, g.1), minus)).finite(),
        d.0.abs_units() <= unit(),
        d.1.abs_units() <= unit(),
        g.0.abs_units() <= unit(),
        g.1.abs_units() <= unit(),
    ensures
        near(
            c.sum(triple(r.0, d.0, g.0)).sum(
                opposite_if(triple(r.1, d.1, g.1), minus),
            ).units(),
            unit() * unit(),
            c.units() * (unit() * unit()) + turned(
                (r.0.units(), r.1.units()),
                (d.0.units(), d.1.units()),
                (g.0.units(), minus_if(g.1.units(), minus)),
            ),
            extent(c, r.0, r.1) * (unit() * unit()),
            8,
            grit(),
        ),
{
    reveal(turned);
    let u2 = unit() * unit();
    let p = triple(r.0, d.0, g.0);
    let o = opposite_if(triple(r.1, d.1, g.1), minus);
    accuracy::law_sum_error(c.sum(p), o);
    accuracy::law_sum_error(c, p);
    lemma_term(r.0, d.0, g.0, false);
    lemma_term(r.1, d.1, g.1, minus);
    let x0 = r.0.units() * d.0.units() * g.0.units();
    let x1 = r.1.units() * d.1.units() * minus_if(g.1.units(), minus);
    let (a, b, e) = (abs(c.units()), abs(r.0.units()), abs(r.1.units()));
    let t = 3 * (unit() * least());
    lemma_place(c, p, o, (x0, x1), (b * u2, e * u2), (t, t));
    assert((a + b + e) * u2 == a * u2 + b * u2 + e * u2) by (nonlinear_arith);
    lemma_near_looser(
        c.sum(p).sum(o).units(),
        u2,
        c.units() * u2 + x0 + x1,
        extent(c, r.0, r.1) * u2,
        8,
        4 * t + 2 * t,
        8,
        grit(),
    );
}

/// A coordinate of the tangent of the ellipse, near the exact one: that of its point a quarter
/// turn on.
proof fn lemma_tangent(r: (Scalar, Scalar), d: (Scalar, Scalar), g: (Scalar, Scalar), minus: bool)
    requires
        triple(r.0.negated(), d.0, g.0).sum(opposite_if(triple(r.1, d.1, g.1), minus)).finite(),
        d.0.abs_units() <= unit(),
        d.1.abs_units() <= unit(),
        g.0.abs_units() <= unit(),
        g.1.abs_units() <= unit(),
    ensures
        near(
            triple(r.0.negated(), d.0, g.0).sum(
                opposite_if(triple(r.1, d.1, g.1), minus),
            ).units(),
            unit() * unit(),
            turned(
                (r.0.units(), r.1.units()),
                (-d.0.units(), d.1.units()),
                (g.0.units(), minus_if(g.1.units(), minus)),
            ),
            (abs(r.0.units()) + abs(r.1.units())) * (unit() * unit()),
            6,
            grit(),
        ),
{
    reveal(turned);
    let u2 = unit() * unit();
    let back = r.0.negated();
    assert(back.magnitude() == r.0.magnitude() && back.units() == -r.0.units());
    let p = triple(back, d.0, g.0);
    let o = opposite_if(triple(r.1, d.1, g.1), minus);
    accuracy::law_sum_error(p, o);
    lemma_term(back, d.0, g.0, false);
    lemma_term(r.1, d.1, g.1, minus);
    let (r0, d0, g0) = (r.0.units(), d.0.units(), g.0.units());
    let x0 = (-r0) * d0 * g0;
    let x1 = r.1.units() * d.1.units() * minus_if(g.1.units(), minus);
    let (b, e) = (abs(r.0.units()), abs(r.1.units()));
    let t = 3 * (unit() * least());
    composition::lemma_near_sum(p, o, u2, (x0, x1), (b * u2, e * u2), 4, (t, t));
    assert(r0 * (-d0) * g0 == x0) by (nonlinear_arith)
        requires
            x0 == (-r0) * d0 * g0,
    ;
    assert((b + e) * u2 == b * u2 + e * u2) by (nonlinear_arith);
    lemma_near_looser(
        p.sum(o).units(),
        u2,
        x0 + x1,
        (b + e) * u2,
        6,
        2 * (t + t),
        6,
        grit(),
    );
}

/// The number without its sign.
proof fn lemma_absolute(a: Scalar)
    ensures
        a.absolute().units() == a.abs_units(),
        a.absolute().abs_units() == a.abs_units(),
        abs(a.units()) == a.abs_units(),
{
    assert(a.absolute().magnitude() == a.magnitude());
}

/// A coordinate of a control point: that of a point, and on along the tangent or back.
proof fn lemma_control(
    p: Scalar,
    t: Scalar,
    alpha: Scalar,
    x: (int, int),
    s: (nat, nat),
    minus: bool,
)
    requires
        alpha.abs_units() <= unit(),
        near(p.units(), unit() * unit(), x.0, s.0, 8, grit()),
        near(t.units(), unit() * unit(), x.1, s.1, 6, grit()),
        (if minus {
            p.difference(alpha.product(t))
        } else {
            p.sum(alpha.product(t))
        }).finite(),
    ensures
        ({
            let v = if minus {
                p.difference(alpha.product(t))
            } else {
                p.sum(alpha.product(t))
            };
            let on = x.1 * alpha.units();
            near(
                v.units(),
                unit() * unit() * unit(),
                x.0 * unit() + if minus {
                    -on
                } else {
                    on
                },
                (s.0 + s.1) * unit(),
                10,
                8 * (grit() * unit()),
            )
        }),
{
    let u = unit();
    let u2 = u * u;
    let a = alpha.product(t);
    let o = if minus {
        a.negated()
    } else {
        a
    };
    accuracy::law_sum_error(p, o);
    assert(a.negated().magnitude() == a.magnitude());
    laws::law_product_commutes(alpha, t);
    composition::lemma_near_product(t, alpha, u2, x.1, s.1, 6, grit());
    let n = abs(alpha.units());
    let on = x.1 * alpha.units();
    let l = least();
    let r = u2 * l + 2 * (grit() * n);
    lemma_near_opposite(a, u2 * u, on, s.1 * n, 8, r);
    let y = if minus {
        -on
    } else {
        on
    };
    composition::lemma_near_scaled(p.units(), u2, x.0, s.0, 8, grit(), u);
    composition::lemma_near_sum(
        p,
        o,
        u2 * u,
        (x.0 * u, y),
        (s.0 * u, s.1 * n),
        8,
        (grit() * u, r),
    );
    assert(s.1 * n <= s.1 * u) by (nonlinear_arith)
        requires
            n <= u,
            s.1 >= 0,
    ;
    assert((s.0 + s.1) * u == s.0 * u + s.1 * u) by (nonlinear_arith);
    let gr = grit();
    assert(gr * n <= gr * u) by (nonlinear_arith)
        requires
            n <= u,
            gr >= 0,
    ;
    assert(24 * (u2 * l) == gr * u) by (nonlinear_arith)
        requires
            gr == 24 * (u * l),
            u2 == u * u,
    ;
    assert(gr * u >= 0 && u2 * l >= 0) by (nonlinear_arith)
        requires
            gr >= 0,
            u >= 0,
            u2 >= 0,
            l >= 0,
    ;
    let v = p.sum(o).units();
    let z = 2 * (gr * u + r);
    lemma_near_wider(v, u2 * u, x.0 * u + y, s.0 * u + s.1 * n, 10, z, (s.0 + s.1) * u);
    lemma_near_looser(v, u2 * u, x.0 * u + y, (s.0 + s.1) * u, 10, z, 10, 8 * (gr * u));
}

/// The points of a curve, each near its exact place; `x` tells which coordinate.
pub open spec fn shares(turn: Vec2, x: bool) -> (int, int) {
    if x {
        (turn.x.units(), -turn.y.units())
    } else {
        (turn.y.units(), turn.x.units())
    }
}

/// One of the coordinates of a point.
pub open spec fn coordinate(p: Point, x: bool) -> Scalar {
    if x {
        p.x
    } else {
        p.y
    }
}

/// A direction as a pair of integers.
pub open spec fn pair(d: Vec2) -> (int, int) {
    (d.x.units(), d.y.units())
}

/// The direction a quarter turn on.
pub open spec fn quarter_on(d: (int, int)) -> (int, int) {
    (-d.1, d.0)
}

/// The radii as integers.
pub open spec fn sizes(radii: Vec2) -> (int, int) {
    (radii.x.abs_units() as int, radii.y.abs_units() as int)
}

/// The points of an arc are on the ellipse: the center, and from there the radii in the direction,
/// turned; up to 8 parts in `2^53` of the center and the radii, and some of the smallest numbers.
pub proof fn law_arc_points_are_on_the_ellipse(
    center: Point,
    radii: Vec2,
    turn: Vec2,
    d: Vec2,
    x: bool,
)
    requires
        is_direction(turn),
        is_direction(d),
        coordinate(
            arc_at(center, radii.x.absolute(), radii.y.absolute(), turn, d),
            x,
        ).finite(),
    ensures
        ({
            let (rx, ry) = (radii.x.absolute(), radii.y.absolute());
            let v = coordinate(arc_at(center, rx, ry, turn, d), x).units();
            let c = coordinate(center, x);
            let u2 = unit() * unit();
            near(
                v,
                u2,
                c.units() * u2 + turned(sizes(radii), pair(d), shares(turn, x)),
                extent(c, rx, ry) * u2,
                8,
                24 * (unit() * least()),
            )
        }),
{
    let (rx, ry) = (radii.x.absolute(), radii.y.absolute());
    lemma_absolute(radii.x);
    lemma_absolute(radii.y);
    assert(-1 * turn.y.units() == -turn.y.units() && 1 * turn.x.units() == turn.x.units());
    if x {
        lemma_point(center.x, (rx, ry), (d.x, d.y), (turn.x, turn.y), true);
    } else {
        lemma_point(center.y, (rx, ry), (d.x, d.y), (turn.y, turn.x), false);
    }
}

proof fn lemma_along(radii: Vec2, turn: Vec2, d: Vec2, x: bool)
    requires
        is_direction(turn),
        is_direction(d),
        coordinate(arc_along(radii.x.absolute(), radii.y.absolute(), turn, d), x).finite(),
    ensures
        ({
            let (rx, ry) = (radii.x.absolute(), radii.y.absolute());
            let v = coordinate(arc_along(rx, ry, turn, d), x).units();
            let u2 = unit() * unit();
            near(
                v,
                u2,
                turned(sizes(radii), quarter_on(pair(d)), shares(turn, x)),
                (radii.x.abs_units() + radii.y.abs_units()) * u2,
                6,
                grit(),
            )
        }),
{
    let (rx, ry) = (radii.x.absolute(), radii.y.absolute());
    lemma_absolute(radii.x);
    lemma_absolute(radii.y);
    assert(-1 * turn.y.units() == -turn.y.units() && 1 * turn.x.units() == turn.x.units());
    if x {
        lemma_tangent((rx, ry), (d.y, d.x), (turn.x, turn.y), true);
    } else {
        lemma_tangent((rx, ry), (d.y, d.x), (turn.y, turn.x), false);
    }
}

/// The length of a control leg against the tangent: four thirds of the tangent of a quarter of
/// the angle, up to rounding.
proof fn lemma_alpha(tan: Scalar)
    requires
        tan.finite(),
        2 * tan.abs_units() <= unit(),
    ensures
        ({
            let alpha = ratio(tan);
            &&& alpha.finite()
            &&& alpha.abs_units() <= unit()
            &&& abs(3 * alpha.units() - 4 * tan.units()) * PARTS <= 8 * unit()
        }),
{
    let f = Scalar { bits: FOUR_THIRDS_BITS };
    let u = unit() as int;
    let w = digits::two_pow(1022) as int;
    digits::lemma_two_pow_positive(1022);
    digits::lemma_two_pow_adds(52, 1022);
    arith::lemma_two_pow_53();
    assert(u == 0x10_0000_0000_0000 * w);
    assert(f.scale() == 1022 && f.significand() == 0x15_5555_5555_5555);
    let v = f.units();
    let t = tan.units();
    let n = tan.abs_units() as int;
    assert(3 * v == 4 * u - w);
    composition::lemma_abs_mul(v, t);
    assert(v * n <= u * u) by (nonlinear_arith)
        requires
            3 * v <= 4 * u,
            2 * n <= u,
            v >= 0,
            n >= 0,
    ;
    accuracy::law_products_stay_finite(f, tan, 1074);
    accuracy::law_product_error(f, tan);
    let a = f.product(tan).units();
    let e = a * u - v * t;
    let p = PARTS as int;
    let k = FRACTION_RANGE as int;
    assert(accuracy::within(e * p, v * n + u * k));
    let g = 3 * a - 4 * t;
    assert(g * u == 3 * e - w * t) by (nonlinear_arith)
        requires
            g == 3 * a - 4 * t,
            e == a * u - v * t,
            3 * v == 4 * u - w,
    ;
    assert((g * p) * u == 3 * (e * p) - (w * t) * p) by (nonlinear_arith)
        requires
            g * u == 3 * e - w * t,
    ;
    assert(3 * (v * n) <= 4 * (u * n)) by (nonlinear_arith)
        requires
            3 * v <= 4 * u,
            n >= 0,
    ;
    assert(accuracy::within((w * t) * p, 2 * (u * n))) by (nonlinear_arith)
        requires
            t == n || t == -n,
            w * p == 2 * u,
            n >= 0,
            u > 0,
    ;
    digits::lemma_two_pow_monotone(60, 1074);
    assert(digits::two_pow(60) == 0x1000_0000_0000_0000) by {
        reveal_with_fuel(digits::two_pow, 61);
    }
    assert(accuracy::within(g * p, 8 * u)) by (nonlinear_arith)
        requires
            accuracy::within((g * p) * u, 6 * (u * n) + 3 * (u * k)),
            2 * n <= u,
            k <= u,
            u > 0,
    ;
}

/// The points of a curve: its start, its control points and its end.
pub open spec fn points(
    center: Point,
    radii: Vec2,
    turn: Vec2,
    tan: Scalar,
    a: Vec2,
    b: Vec2,
) -> (Point, Point, Point, Point) {
    let start = arc_at(center, radii.x.absolute(), radii.y.absolute(), turn, a);
    match arc_curve(center, radii, turn, tan, a, b) {
        PathEl::CurveTo(c1, c2, end) => (start, c1, c2, end),
        _ => (start, start, start, start),
    }
}

/// An arc from one direction to another, all of it finite, of at most a quarter turn or so.
pub open spec fn ordinary(
    center: Point,
    radii: Vec2,
    turn: Vec2,
    tan: Scalar,
    a: Vec2,
    b: Vec2,
    x: bool,
) -> bool {
    let (p0, c1, c2, p3) = points(center, radii, turn, tan, a, b);
    &&& is_direction(turn)
    &&& is_direction(a)
    &&& is_direction(b)
    &&& tan.finite()
    &&& 2 * tan.abs_units() <= unit()
    &&& coordinate(p0, x).finite()
    &&& coordinate(c1, x).finite()
    &&& coordinate(c2, x).finite()
    &&& coordinate(p3, x).finite()
}

/// The cube of the number of units in `1.0`.
pub open spec fn unit3() -> nat {
    unit() * unit() * unit()
}

/// The length of a control leg against the tangent.
spec fn ratio(tan: Scalar) -> Scalar {
    (Scalar { bits: FOUR_THIRDS_BITS }).product(tan)
}

/// A coordinate of a control point.
spec fn leg(p: Scalar, t: Scalar, tan: Scalar, minus: bool) -> Scalar {
    p.sum(opposite_if(ratio(tan).product(t), minus))
}

/// A control point of a curve.
proof fn lemma_leg(
    center: Point,
    radii: Vec2,
    turn: Vec2,
    tan: Scalar,
    d: Vec2,
    x: bool,
    minus: bool,
)
    requires
        is_direction(turn),
        is_direction(d),
        tan.finite(),
        2 * tan.abs_units() <= unit(),
        ({
            let (rx, ry) = (radii.x.absolute(), radii.y.absolute());
            let p = coordinate(arc_at(center, rx, ry, turn, d), x);
            let t = coordinate(arc_along(rx, ry, turn, d), x);
            p.finite() && leg(p, t, tan, minus).finite()
        }),
    ensures
        ({
            let (rx, ry) = (radii.x.absolute(), radii.y.absolute());
            let p = coordinate(arc_at(center, rx, ry, turn, d), x);
            let t = coordinate(arc_along(rx, ry, turn, d), x);
            let c = coordinate(center, x);
            let u2 = unit() * unit();
            let on = turned(sizes(radii), quarter_on(pair(d)), shares(turn, x)) * ratio(
                tan,
            ).units();
            near(
                leg(p, t, tan, minus).units(),
                unit3(),
                (c.units() * u2 + turned(sizes(radii), pair(d), shares(turn, x))) * unit()
                    + minus_if(on, minus),
                2 * (extent(c, rx, ry) * unit3()),
                10,
                8 * (grit() * unit()),
            )
        }),
{
    let (rx, ry) = (radii.x.absolute(), radii.y.absolute());
    lemma_absolute(radii.x);
    lemma_absolute(radii.y);
    let p = coordinate(arc_at(center, rx, ry, turn, d), x);
    let t = coordinate(arc_along(rx, ry, turn, d), x);
    lemma_leg_finite(p, t, tan, minus);
    law_arc_points_are_on_the_ellipse(center, radii, turn, d, x);
    lemma_along(radii, turn, d, x);
    let c = coordinate(center, x);
    let u2 = unit() * unit();
    lemma_leg_at(
        p,
        t,
        tan,
        minus,
        c.units() * u2 + turned(sizes(radii), pair(d), shares(turn, x)),
        turned(sizes(radii), quarter_on(pair(d)), shares(turn, x)),
        extent(c, rx, ry),
        radii.x.abs_units() + radii.y.abs_units(),
    );
}

/// A finite leg comes from a finite tangent.
proof fn lemma_leg_finite(p: Scalar, t: Scalar, tan: Scalar, minus: bool)
    requires
        leg(p, t, tan, minus).finite(),
    ensures
        t.finite(),
{
    let a = ratio(tan).product(t);
    assert(a.negated().magnitude() == a.magnitude());
    accuracy::law_sum_error(p, opposite_if(a, minus));
    accuracy::law_product_error(ratio(tan), t);
}

/// A leg in terms of a point and a tangent that are near their exact places.
proof fn lemma_leg_at(
    p: Scalar,
    t: Scalar,
    tan: Scalar,
    minus: bool,
    x0: int,
    x1: int,
    e: nat,
    r: nat,
)
    requires
        tan.finite(),
        2 * tan.abs_units() <= unit(),
        leg(p, t, tan, minus).finite(),
        near(p.units(), unit() * unit(), x0, e * (unit() * unit()), 8, grit()),
        near(t.units(), unit() * unit(), x1, r * (unit() * unit()), 6, grit()),
        r <= e,
    ensures
        near(
            leg(p, t, tan, minus).units(),
            unit3(),
            x0 * unit() + minus_if(x1 * ratio(tan).units(), minus),
            2 * (e * unit3()),
            10,
            8 * (grit() * unit()),
        ),
{
    lemma_alpha(tan);
    let u = unit();
    let u2 = u * u;
    let alpha = ratio(tan);
    lemma_control(p, t, alpha, (x0, x1), (e * u2, r * u2), minus);
    assert((e * u2 + r * u2) * u <= 2 * (e * (u2 * u))) by (nonlinear_arith)
        requires
            r <= e,
            u2 >= 0,
            u >= 0,
            r >= 0,
    ;
    lemma_near_wider(
        leg(p, t, tan, minus).units(),
        unit3(),
        x0 * u + minus_if(x1 * alpha.units(), minus),
        (e * u2 + r * u2) * u,
        10,
        8 * (grit() * u),
        2 * (e * unit3()),
    );
}

/// A coordinate is that of the point of the ellipse in direction `d`, and from there on along the
/// tangent, or back where `minus` holds: by four thirds of `tan` of the way to the point of the
/// ellipse a quarter turn on. It may be off by 68 parts in `2^53` of the center and the radii, and
/// by some of the smallest numbers.
#[verifier::opaque]
pub open spec fn is_leg(
    v: Scalar,
    center: Point,
    radii: Vec2,
    turn: Vec2,
    tan: Scalar,
    d: Vec2,
    x: bool,
    minus: bool,
) -> bool {
    let c = coordinate(center, x);
    let e = extent(c, radii.x, radii.y);
    let at = (c.units() * (unit() * unit()) + turned(sizes(radii), pair(d), shares(turn, x)))
        * unit();
    let on = turned(sizes(radii), quarter_on(pair(d)), shares(turn, x)) * tan.units();
    abs(3 * (v.units() * unit3()) - (3 * at + minus_if(4 * on, minus))) * PARTS <= 68 * (e
        * unit3()) + 300 * (PARTS * unit3())
}

proof fn lemma_is_leg(
    center: Point,
    radii: Vec2,
    turn: Vec2,
    tan: Scalar,
    d: Vec2,
    x: bool,
    minus: bool,
)
    requires
        is_direction(turn),
        is_direction(d),
        tan.finite(),
        2 * tan.abs_units() <= unit(),
        ({
            let (rx, ry) = (radii.x.absolute(), radii.y.absolute());
            let p = coordinate(arc_at(center, rx, ry, turn, d), x);
            let t = coordinate(arc_along(rx, ry, turn, d), x);
            p.finite() && leg(p, t, tan, minus).finite()
        }),
    ensures
        ({
            let (rx, ry) = (radii.x.absolute(), radii.y.absolute());
            let p = coordinate(arc_at(center, rx, ry, turn, d), x);
            let t = coordinate(arc_along(rx, ry, turn, d), x);
            is_leg(leg(p, t, tan, minus), center, radii, turn, tan, d, x, minus)
        }),
{
    lemma_leg(center, radii, turn, tan, d, x, minus);
    lemma_alpha(tan);
    let (rx, ry) = (radii.x.absolute(), radii.y.absolute());
    lemma_absolute(radii.x);
    lemma_absolute(radii.y);
    let p = coordinate(arc_at(center, rx, ry, turn, d), x);
    let t = coordinate(arc_along(rx, ry, turn, d), x);
    let alpha = ratio(tan);
    let v = leg(p, t, tan, minus);
    let c = coordinate(center, x);
    let e = extent(c, rx, ry);
    let on = turned(sizes(radii), quarter_on(pair(d)), shares(turn, x));
    lemma_turned_size(radii, quarter_on(pair(d)), shares(turn, x));
    let at = (c.units() * (unit() * unit()) + turned(sizes(radii), pair(d), shares(turn, x)))
        * unit();
    let r = radii.x.abs_units() + radii.y.abs_units();
    lemma_grit();
    lemma_thirds(v.units(), at, on, alpha.units(), tan.units(), e, r, minus);
    reveal(is_leg);
}

/// The control points of a curve lie along the tangents of its ends: from the start on, and from
/// the end back.
pub proof fn law_control_points_follow_the_tangents(
    center: Point,
    radii: Vec2,
    turn: Vec2,
    tan: Scalar,
    a: Vec2,
    b: Vec2,
    x: bool,
)
    requires
        ordinary(center, radii, turn, tan, a, b, x),
    ensures
        ({
            let (p0, c1, c2, p3) = points(center, radii, turn, tan, a, b);
            &&& is_leg(coordinate(c1, x), center, radii, turn, tan, a, x, false)
            &&& is_leg(coordinate(c2, x), center, radii, turn, tan, b, x, true)
        }),
{
    lemma_is_leg(center, radii, turn, tan, a, x, false);
    lemma_is_leg(center, radii, turn, tan, b, x, true);
}

/// The absolute part of the errors in terms of one rounding.
proof fn lemma_grit()
    ensures
        8 * (grit() * unit()) == 96 * (PARTS * unit3()),
        grit() * unit() == 12 * (PARTS * unit3()),
{
    let u = unit();
    let l = least();
    let k = FRACTION_RANGE as nat;
    assert(24 * (u * (u * k)) * u == 24 * (k * (u * u * u))) by (nonlinear_arith);
}

/// A point of the ellipse is not farther from its center than both radii together.
proof fn lemma_turned_size(radii: Vec2, d: (int, int), g: (int, int))
    requires
        abs(d.0) <= unit(),
        abs(d.1) <= unit(),
        abs(g.0) <= unit(),
        abs(g.1) <= unit(),
    ensures
        abs(turned(sizes(radii), d, g)) <= (radii.x.abs_units() + radii.y.abs_units()) * (unit()
            * unit()),
{
    reveal(turned);
    let r = sizes(radii);
    composition::lemma_abs_mul(r.0 * d.0, g.0);
    composition::lemma_abs_mul(r.0, d.0);
    composition::lemma_abs_mul(r.1 * d.1, g.1);
    composition::lemma_abs_mul(r.1, d.1);
    lemma_share(r.0, d.0, g.0, unit());
    lemma_share(r.1, d.1, g.1, unit());
    let u2 = unit() * unit();
    let (m, n) = (radii.x.abs_units(), radii.y.abs_units());
    assert((m + n) * u2 == m * u2 + n * u2) by (nonlinear_arith);
}

/// A control leg in terms of the tangent of a quarter of the angle.
proof fn lemma_thirds(v: int, at: int, t: int, alpha: int, tan: int, e: nat, r: nat, minus: bool)
    requires
        near(
            v,
            unit3(),
            at + minus_if(t * alpha, minus),
            2 * (e * unit3()),
            10,
            8 * (grit() * unit()),
        ),
        8 * (grit() * unit()) == 96 * (PARTS * unit3()),
        abs(t) <= r * (unit() * unit()),
        r <= e,
        abs(3 * alpha - 4 * tan) * PARTS <= 8 * unit(),
    ensures
        abs(3 * (v * unit3()) - (3 * at + minus_if(4 * (t * tan), minus))) * PARTS <= 68 * (e
            * unit3()) + 300 * (PARTS * unit3()),
{
    let u = unit();
    let u2 = u * u;
    let u3 = unit3();
    let d = 3 * alpha - 4 * tan;
    let f = t * d;
    assert(3 * (t * alpha) - 4 * (t * tan) == f) by (nonlinear_arith)
        requires
            f == t * d,
            d == 3 * alpha - 4 * tan,
    ;
    composition::lemma_abs_mul(t, d);
    let (m, n) = (abs(t), abs(d));
    assert((m * n) * PARTS <= 8 * (e * u3)) by (nonlinear_arith)
        requires
            m <= r * u2,
            r <= e,
            n * PARTS <= 8 * u,
            u3 == u2 * u,
            u2 >= 0,
            u >= 0,
    ;
    let g = v * u3 - (at + minus_if(t * alpha, minus));
    assert(abs(3 * g) * PARTS <= 60 * (e * u3) + 288 * (PARTS * u3)) by {
        assert(10 * (2 * (e * u3)) == 20 * (e * u3));
    }
}

/// `m` is the direction halfway between two others, and `half` the cosine and the sine of half
/// the angle between them, all up to `e` parts of `1.0`; `tan` is the tangent of a quarter of the
/// angle, for which the sine of the half times it is what the cosine of the half falls short of 1.
#[verifier::opaque]
pub open spec fn is_halfway(
    m: (int, int),
    half: (int, int),
    tan: Scalar,
    a: (int, int),
    b: (int, int),
    e: nat,
) -> bool {
    let u = unit();
    &&& abs(m.0) <= u
    &&& abs(m.1) <= u
    &&& abs(a.0 * u - (m.0 * half.0 + m.1 * half.1)) <= e * u
    &&& abs(a.1 * u - (m.1 * half.0 - m.0 * half.1)) <= e * u
    &&& abs(b.0 * u - (m.0 * half.0 - m.1 * half.1)) <= e * u
    &&& abs(b.1 * u - (m.1 * half.0 + m.0 * half.1)) <= e * u
    &&& abs(half.1 * tan.units() - (u - half.0) * u) <= e * u
}

/// Twice the halfway direction, from the two directions.
spec fn blend(a: (int, int), b: (int, int), tan: int) -> (int, int) {
    (
        (a.0 + b.0) * unit() + (b.1 - a.1) * tan,
        (a.1 + b.1) * unit() + (a.0 - b.0) * tan,
    )
}

/// One component of the halfway direction.
proof fn lemma_blend(s: int, d: int, m: int, c: int, h: int, tan: int, u: int, e: int)
    requires
        u > 0,
        e >= 0,
        abs(m) <= u,
        2 * abs(tan) <= u,
        abs(s * u - 2 * (m * c)) <= 2 * (e * u),
        abs(d * u - 2 * (m * h)) <= 2 * (e * u),
        abs(h * tan - (u - c) * u) <= e * u,
    ensures
        abs(s * u + d * tan - 2 * (u * m)) <= 5 * (e * u),
{
    let e1 = s * u - 2 * (m * c);
    let e2 = d * u - 2 * (m * h);
    let e3 = h * tan - (u - c) * u;
    let v = s * u + d * tan - 2 * (u * m);
    let (su, dt, um, mc, mh, mu) = (s * u, d * tan, u * m, m * c, m * h, m * u);
    assert(v * u == su * u + dt * u - 2 * (um * u)) by (nonlinear_arith)
        requires
            v == su + dt - 2 * um,
    ;
    assert(u * e1 == su * u - 2 * (mc * u)) by (nonlinear_arith)
        requires
            e1 == su - 2 * mc,
    ;
    assert(tan * e2 == dt * u - 2 * (mh * tan)) by (nonlinear_arith)
        requires
            e2 == d * u - 2 * mh,
            dt == d * tan,
    ;
    assert(m * e3 == mh * tan - mu * u + mc * u) by (nonlinear_arith)
        requires
            e3 == h * tan - (u - c) * u,
            mh == m * h,
            mu == m * u,
            mc == m * c,
    ;
    assert(um * u == mu * u) by (nonlinear_arith)
        requires
            um == u * m,
            mu == m * u,
    ;
    assert(v * u == u * e1 + tan * e2 + 2 * (m * e3));
    let eu = e * u;
    composition::lemma_abs_mul(u, e1);
    composition::lemma_abs_mul(tan, e2);
    composition::lemma_abs_mul(m, e3);
    let (x, y, z) = (abs(e1), abs(e2), abs(e3));
    let (t, n) = (abs(tan), abs(m));
    assert(u * x <= 2 * (eu * u) && t * y <= eu * u && n * z <= eu * u) by (nonlinear_arith)
        requires
            x <= 2 * eu,
            y <= 2 * eu,
            z <= eu,
            2 * t <= u,
            n <= u,
            u > 0,
            x >= 0,
            y >= 0,
            z >= 0,
            t >= 0,
            n >= 0,
    ;
    composition::lemma_abs_mul(v, u);
    assert(abs(v) * u <= 5 * (eu * u));
    let w = abs(v);
    assert(w <= 5 * eu) by (nonlinear_arith)
        requires
            w * u <= 5 * (eu * u),
            u > 0,
    ;
}

proof fn lemma_halfway(
    m: (int, int),
    half: (int, int),
    tan: Scalar,
    a: (int, int),
    b: (int, int),
    e: nat,
)
    requires
        is_halfway(m, half, tan, a, b, e),
        2 * tan.abs_units() <= unit(),
    ensures
        abs(blend(a, b, tan.units()).0 - 2 * (unit() * m.0)) <= 5 * (e * unit()),
        abs(blend(a, b, tan.units()).1 - 2 * (unit() * m.1)) <= 5 * (e * unit()),
{
    reveal(is_halfway);
    digits::lemma_two_pow_positive(1074);
    let u = unit() as int;
    let t = tan.units();
    let (c, h) = half;
    assert((a.0 + b.0) * u == a.0 * u + b.0 * u) by (nonlinear_arith);
    assert((a.1 + b.1) * u == a.1 * u + b.1 * u) by (nonlinear_arith);
    assert((b.1 - a.1) * u == b.1 * u - a.1 * u) by (nonlinear_arith);
    assert((a.0 - b.0) * u == a.0 * u - b.0 * u) by (nonlinear_arith);
    lemma_blend(a.0 + b.0, b.1 - a.1, m.0, c, h, t, u, e as int);
    lemma_blend(a.1 + b.1, a.0 - b.0, m.1, c, h, t, u, e as int);
}

/// A coordinate of the ellipse is linear in the direction.
proof fn lemma_linear(r: (int, int), a: (int, int), b: (int, int), g: (int, int), tan: int)
    ensures
        (turned(r, a, g) + turned(r, b, g)) * unit() + (turned(r, quarter_on(a), g) - turned(
            r,
            quarter_on(b),
            g,
        )) * tan == turned(r, blend(a, b, tan), g),
{
    reveal(turned);
    let u = unit() as int;
    lemma_linear_part(r.0, g.0, a.0, b.0, -a.1, -b.1, u, tan);
    lemma_linear_part(r.1, g.1, a.1, b.1, a.0, b.0, u, tan);
    let (x0, x1) = (r.0 * a.0 * g.0, r.0 * b.0 * g.0);
    let (y0, y1) = (r.1 * a.1 * g.1, r.1 * b.1 * g.1);
    let (s0, s1) = (r.0 * (-a.1) * g.0, r.0 * (-b.1) * g.0);
    let (t0, t1) = (r.1 * a.0 * g.1, r.1 * b.0 * g.1);
    assert((x0 + y0 + (x1 + y1)) * u == (x0 + x1) * u + (y0 + y1) * u) by (nonlinear_arith);
    assert((s0 + t0 - (s1 + t1)) * tan == (s0 - s1) * tan + (t0 - t1) * tan) by (nonlinear_arith);
}

proof fn lemma_linear_part(r: int, g: int, a: int, b: int, p: int, q: int, u: int, t: int)
    ensures
        (r * a * g + r * b * g) * u + (r * p * g - r * q * g) * t == r * ((a + b) * u + (p - q)
            * t) * g,
{
    let k = r * g;
    assert(r * a * g == k * a && r * b * g == k * b && r * p * g == k * p && r * q * g == k * q)
        by (nonlinear_arith)
        requires
            k == r * g,
    ;
    let v = (a + b) * u + (p - q) * t;
    assert(r * v * g == k * v) by (nonlinear_arith)
        requires
            k == r * g,
    ;
    assert((k * a + k * b) * u == k * ((a + b) * u)) by (nonlinear_arith);
    assert((k * p - k * q) * t == k * ((p - q) * t)) by (nonlinear_arith);
    let (x, y) = ((a + b) * u, (p - q) * t);
    assert(k * (x + y) == k * x + k * y) by (nonlinear_arith);
}

/// A coordinate of the ellipse in nearly the same direction is nearly the same.
proof fn lemma_turned_error(radii: Vec2, v: (int, int), m: (int, int), g: (int, int), e: nat)
    requires
        abs(v.0 - 2 * (unit() * m.0)) <= e,
        abs(v.1 - 2 * (unit() * m.1)) <= e,
        abs(g.0) <= unit(),
        abs(g.1) <= unit(),
    ensures
        abs(turned(sizes(radii), v, g) - 2 * (unit() * turned(sizes(radii), m, g))) <= (
        radii.x.abs_units() + radii.y.abs_units()) * (e * unit()),
{
    reveal(turned);
    let r = sizes(radii);
    let u = unit() as int;
    lemma_turned_part(r.0, v.0, m.0, g.0, u, e as int);
    lemma_turned_part(r.1, v.1, m.1, g.1, u, e as int);
    let (x, y) = (r.0 * m.0 * g.0, r.1 * m.1 * g.1);
    assert(u * (x + y) == u * x + u * y) by (nonlinear_arith);
    let eu = e * u;
    assert((r.0 + r.1) * eu == r.0 * eu + r.1 * eu) by (nonlinear_arith);
}

proof fn lemma_turned_part(r: int, v: int, m: int, g: int, u: int, e: int)
    requires
        r >= 0,
        u >= 0,
        e >= 0,
        abs(v - 2 * (u * m)) <= e,
        abs(g) <= u,
    ensures
        abs(r * v * g - 2 * (u * (r * m * g))) <= r * (e * u),
{
    let d = v - 2 * (u * m);
    assert(r * v * g - 2 * (u * (r * m * g)) == r * (d * g)) by (nonlinear_arith)
        requires
            d == v - 2 * (u * m),
    ;
    composition::lemma_abs_mul(r, d * g);
    composition::lemma_abs_mul(d, g);
    let (x, y) = (abs(d), abs(g));
    assert(x * y <= e * u) by (nonlinear_arith)
        requires
            x <= e,
            y <= u,
            x >= 0,
            y >= 0,
    ;
    let z = x * y;
    assert(r * z <= r * (e * u)) by (nonlinear_arith)
        requires
            z <= e * u,
            r >= 0,
    ;
}

/// Eight times the middle of a curve: its ends, and three times its control points.
pub open spec fn middle8(p: (Point, Point, Point, Point), x: bool) -> int {
    coordinate(p.0, x).units() + 3 * coordinate(p.1, x).units() + 3 * coordinate(p.2, x).units()
        + coordinate(p.3, x).units()
}

/// The middle in terms of the two directions.
proof fn lemma_middle(
    center: Point,
    radii: Vec2,
    turn: Vec2,
    tan: Scalar,
    a: Vec2,
    b: Vec2,
    x: bool,
)
    requires
        ordinary(center, radii, turn, tan, a, b, x),
    ensures
        ({
            let c = coordinate(center, x);
            let v = blend(pair(a), pair(b), tan.units());
            let e = extent(c, radii.x, radii.y);
            abs(
                middle8(points(center, radii, turn, tan, a, b), x) * unit3() - (8 * (c.units()
                    * unit3()) + 4 * turned(sizes(radii), v, shares(turn, x))),
            ) * PARTS <= 152 * (e * unit3()) + 624 * (PARTS * unit3())
        }),
{
    let (p0, c1, c2, p3) = points(center, radii, turn, tan, a, b);
    law_control_points_follow_the_tangents(center, radii, turn, tan, a, b, x);
    reveal(is_leg);
    lemma_end(center, radii, turn, a, x);
    lemma_end(center, radii, turn, b, x);
    let c = coordinate(center, x);
    let e = extent(c, radii.x, radii.y);
    let g = shares(turn, x);
    let r = sizes(radii);
    let t = tan.units();
    lemma_linear(r, pair(a), pair(b), g, t);
    lemma_add_up(
        (coordinate(p0, x).units(), coordinate(c1, x).units()),
        (coordinate(c2, x).units(), coordinate(p3, x).units()),
        (turned(r, pair(a), g), turned(r, pair(b), g)),
        (turned(r, quarter_on(pair(a)), g), turned(r, quarter_on(pair(b)), g)),
        c.units(),
        t,
        e,
        turned(r, blend(pair(a), pair(b), t), g),
    );
}

/// An end of a curve, in units to the fourth power.
proof fn lemma_end(center: Point, radii: Vec2, turn: Vec2, d: Vec2, x: bool)
    requires
        is_direction(turn),
        is_direction(d),
        coordinate(
            arc_at(center, radii.x.absolute(), radii.y.absolute(), turn, d),
            x,
        ).finite(),
    ensures
        ({
            let p = arc_at(center, radii.x.absolute(), radii.y.absolute(), turn, d);
            let c = coordinate(center, x);
            let e = extent(c, radii.x, radii.y);
            abs(
                coordinate(p, x).units() * unit3() - (c.units() * (unit() * unit()) + turned(
                    sizes(radii),
                    pair(d),
                    shares(turn, x),
                )) * unit(),
            ) * PARTS <= 8 * (e * unit3()) + 12 * (PARTS * unit3())
        }),
{
    law_arc_points_are_on_the_ellipse(center, radii, turn, d, x);
    lemma_absolute(radii.x);
    lemma_absolute(radii.y);
    lemma_grit();
    let u = unit();
    let u2 = u * u;
    let p = arc_at(center, radii.x.absolute(), radii.y.absolute(), turn, d);
    let c = coordinate(center, x);
    let e = extent(c, radii.x, radii.y);
    let v = coordinate(p, x).units();
    let at = c.units() * u2 + turned(sizes(radii), pair(d), shares(turn, x));
    composition::lemma_near_scaled(v, u2, at, e * u2, 8, grit(), u);
    assert((e * u2) * u == e * (u2 * u)) by (nonlinear_arith);
}

/// The errors of the points of a curve, added up.
proof fn lemma_add_up(
    p: (int, int),
    q: (int, int),
    at: (int, int),
    on: (int, int),
    c: int,
    t: int,
    e: nat,
    v: int,
)
    requires
        (at.0 + at.1) * unit() + (on.0 - on.1) * t == v,
        abs(p.0 * unit3() - (c * (unit() * unit()) + at.0) * unit()) * PARTS <= 8 * (e * unit3())
            + 12 * (PARTS * unit3()),
        abs(q.1 * unit3() - (c * (unit() * unit()) + at.1) * unit()) * PARTS <= 8 * (e * unit3())
            + 12 * (PARTS * unit3()),
        abs(
            3 * (p.1 * unit3()) - (3 * ((c * (unit() * unit()) + at.0) * unit()) + 4 * (on.0 * t)),
        ) * PARTS <= 68 * (e * unit3()) + 300 * (PARTS * unit3()),
        abs(
            3 * (q.0 * unit3()) - (3 * ((c * (unit() * unit()) + at.1) * unit()) - 4 * (on.1 * t)),
        ) * PARTS <= 68 * (e * unit3()) + 300 * (PARTS * unit3()),
    ensures
        abs(
            (p.0 + 3 * p.1 + 3 * q.0 + q.1) * unit3() - (8 * (c * unit3()) + 4 * v),
        ) * PARTS <= 152 * (e * unit3()) + 624 * (PARTS * unit3()),
{
    let u = unit() as int;
    let u2 = u * u;
    let u3 = unit3() as int;
    assert((c * u2 + at.0) * u == c * u3 + at.0 * u) by (nonlinear_arith)
        requires
            u3 == u2 * u,
    ;
    assert((c * u2 + at.1) * u == c * u3 + at.1 * u) by (nonlinear_arith)
        requires
            u3 == u2 * u,
    ;
    assert((at.0 + at.1) * u == at.0 * u + at.1 * u) by (nonlinear_arith);
    assert((on.0 - on.1) * t == on.0 * t - on.1 * t) by (nonlinear_arith);
    assert((p.0 + 3 * p.1 + 3 * q.0 + q.1) * u3 == p.0 * u3 + 3 * (p.1 * u3) + 3 * (q.0 * u3) + q.1
        * u3) by (nonlinear_arith);
    let d0 = p.0 * u3 - (c * u3 + at.0 * u);
    let d1 = 3 * (p.1 * u3) - (3 * (c * u3 + at.0 * u) + 4 * (on.0 * t));
    let d2 = 3 * (q.0 * u3) - (3 * (c * u3 + at.1 * u) - 4 * (on.1 * t));
    let d3 = q.1 * u3 - (c * u3 + at.1 * u);
    let d = (p.0 + 3 * p.1 + 3 * q.0 + q.1) * u3 - (8 * (c * u3) + 4 * v);
    assert(d == d0 + d1 + d2 + d3);
    assert(abs(d) <= abs(d0) + abs(d1) + abs(d2) + abs(d3));
}

/// The middle of a curve is on the ellipse: it is the point in the direction halfway between its
/// ends, up to rounding and to what the directions and the tangent are off by.
pub proof fn law_curves_meet_the_ellipse_halfway(
    center: Point,
    radii: Vec2,
    turn: Vec2,
    tan: Scalar,
    a: Vec2,
    b: Vec2,
    m: (int, int),
    half: (int, int),
    e: nat,
    x: bool,
)
    requires
        ordinary(center, radii, turn, tan, a, b, x),
        is_halfway(m, half, tan, pair(a), pair(b), e),
    ensures
        ({
            let c = coordinate(center, x);
            let size = extent(c, radii.x, radii.y);
            abs(
                middle8(points(center, radii, turn, tan, a, b), x) * unit3() - 8 * (c.units()
                    * unit3() + unit() * turned(sizes(radii), m, shares(turn, x))),
            ) * PARTS <= 152 * (size * unit3()) + 624 * (PARTS * unit3()) + 20 * PARTS * (size * (e
                * unit() * unit()))
        }),
{
    lemma_middle(center, radii, turn, tan, a, b, x);
    lemma_halfway(m, half, tan, pair(a), pair(b), e);
    let c = coordinate(center, x);
    let size = extent(c, radii.x, radii.y);
    let v = blend(pair(a), pair(b), tan.units());
    let g = shares(turn, x);
    let u = unit();
    lemma_turned_error(radii, v, m, g, 5 * (e * u));
    lemma_absolute(radii.x);
    lemma_absolute(radii.y);
    let r = radii.x.abs_units() + radii.y.abs_units();
    let d = turned(sizes(radii), v, g) - 2 * (u * turned(sizes(radii), m, g));
    let eu2 = e * u * u;
    assert(r * (5 * (e * u) * u) <= 5 * (size * eu2)) by (nonlinear_arith)
        requires
            r <= size,
            eu2 == e * u * u,
            eu2 >= 0,
    ;
    assert(abs(d) <= 5 * (size * eu2));
    lemma_last(
        middle8(points(center, radii, turn, tan, a, b), x) * unit3() - 8 * (c.units() * unit3()),
        turned(sizes(radii), v, g),
        u * turned(sizes(radii), m, g),
        152 * (size * unit3()) + 624 * (PARTS * unit3()),
        (size * eu2) as int,
    );
}

proof fn lemma_last(w: int, v: int, m: int, b: int, z: int)
    requires
        abs(w - 4 * v) * PARTS <= b,
        abs(v - 2 * m) <= 5 * z,
    ensures
        abs(w - 8 * m) * PARTS <= b + 20 * PARTS * z,
{
    let p = PARTS as int;
    let (x, y) = (abs(w - 4 * v) as int, abs(v - 2 * m) as int);
    let d = abs(w - 8 * m) as int;
    assert(d <= x + 4 * y);
    assert(d * p <= x * p + 20 * p * z) by (nonlinear_arith)
        requires
            d <= x + 4 * y,
            y <= 5 * z,
            p > 0,
    ;
}

/// A number times the opposite of another is the opposite of the product.
pub proof fn lemma_opposite_product(a: Scalar, b: Scalar)
    requires
        a.product(b).finite(),
    ensures
        a.product(b.negated()) == a.product(b).negated(),
        a.negated().product(b) == a.product(b).negated(),
{
    accuracy::law_product_error(a, b);
    reveal(Scalar::product);
    assert(b.negated().magnitude() == b.magnitude());
    assert(a.negated().magnitude() == a.magnitude());
    let m = arith::nearest(a.abs_units() * b.abs_units(), digits::two_pow(1074));
    arith::lemma_nearest_range(a.abs_units() * b.abs_units(), digits::two_pow(1074));
    laws::lemma_signed_magnitude(a.negative() != b.negative(), m);
    laws::lemma_signed_magnitude(a.negative() == b.negative(), m);
}

/// A curve from `b` back to `a` is that from `a` to `b` with its points in reverse.
pub proof fn law_curves_can_be_run_back(
    center: Point,
    radii: Vec2,
    turn: Vec2,
    tan: Scalar,
    a: Vec2,
    b: Vec2,
)
    requires
        ordinary(center, radii, turn, tan, a, b, true),
        ordinary(center, radii, turn, tan, a, b, false),
    ensures
        ({
            let (p0, c1, c2, p3) = points(center, radii, turn, tan, a, b);
            points(center, radii, turn, tan.negated(), b, a) == (p3, c2, c1, p0)
        }),
{
    lemma_alpha(tan);
    let f = Scalar { bits: FOUR_THIRDS_BITS };
    lemma_opposite_product(f, tan);
    let alpha = f.product(tan);
    let (rx, ry) = (radii.x.absolute(), radii.y.absolute());
    let (pa, pb) = (arc_at(center, rx, ry, turn, a), arc_at(center, rx, ry, turn, b));
    let (da, db) = (arc_along(rx, ry, turn, a), arc_along(rx, ry, turn, b));
    lemma_run_back(pa.x, alpha, da.x, false);
    lemma_run_back(pa.y, alpha, da.y, false);
    lemma_run_back(pb.x, alpha, db.x, true);
    lemma_run_back(pb.y, alpha, db.y, true);
}

/// A step along the tangent with the opposite length is a step back.
proof fn lemma_run_back(p: Scalar, alpha: Scalar, t: Scalar, minus: bool)
    requires
        p.sum(opposite_if(alpha.product(t), minus)).finite(),
    ensures
        p.difference(alpha.negated().product(t)) == p.sum(alpha.product(t)),
        p.sum(alpha.negated().product(t)) == p.difference(alpha.product(t)),
{
    let a = alpha.product(t);
    assert(a.negated().magnitude() == a.magnitude());
    accuracy::law_sum_error(p, opposite_if(a, minus));
    lemma_opposite_product(alpha, t);
    assert(a.negated().negated() == a);
}

/// An arc adds a line or a start to its first point, and a curve to each further direction; what
/// was drawn before stays.
pub proof fn law_arcs_run_through_their_directions(
    s: PathState,
    center: Point,
    radii: Vec2,
    turn: Vec2,
    tan: Scalar,
    directions: Seq<Vec2>,
    i: int,
)
    requires
        1 <= i < directions.len(),
    ensures
        ({
            let r = path2d::arc_state(s, center, radii, turn, tan, directions);
            let n = s.els.len() as int;
            let (p0, c1, c2, p3) = points(
                center,
                radii,
                turn,
                tan,
                directions[i - 1],
                directions[i],
            );
            let first = arc_at(center, radii.x.absolute(), radii.y.absolute(), turn, directions[0]);
            &&& r.started
            &&& r.closed == s.closed
            &&& r.els.len() == n + directions.len()
            &&& r.els.take(n) == s.els
            &&& r.els[n] == if s.started {
                PathEl::LineTo(first)
            } else {
                PathEl::MoveTo(first)
            }
            &&& r.els[n + i] == PathEl::CurveTo(c1, c2, p3)
        }),
{
    let r = path2d::arc_state(s, center, radii, turn, tan, directions);
    assert(r.els.take(s.els.len() as int) =~= s.els);
}

} // verus!
