//! What the boxes of elements hold.

use vstd::prelude::*;
use crate::accuracy;
use crate::arith;
use crate::digits;
use crate::fit;
use crate::fit::{Facts, Measure, SceneMeasure};
use crate::geometry::{Point, Rect, Transform, TWO_BITS};
use crate::laws;
use crate::render::placement;
use crate::scalar;
use crate::scalar::Scalar;
use crate::scene::{Element, Layer, ObjectFit, Scene, SceneNode};
use crate::style::Stroke;

verus! {

/// Sums are in the order of the exact sums.
pub proof fn law_sums_are_in_order(a: Scalar, b: Scalar, c: Scalar, d: Scalar)
    requires
        a.finite(),
        b.finite(),
        c.finite(),
        d.finite(),
        a.units() + b.units() <= c.units() + d.units(),
    ensures
        !a.sum(b).nan(),
        !c.sum(d).nan(),
        a.sum(b).units() <= c.sum(d).units(),
{
    let s = a.sum(b);
    let t = c.sum(d);
    let u = a.units() + b.units();
    let v = c.units() + d.units();
    laws::lemma_sum_value(a, b);
    laws::lemma_sum_value(c, d);
    if u > 0 {
        laws::law_rounding_is_monotone(u as nat, 1, v as nat, 1);
        laws::lemma_order(s, t);
    } else if v < 0 {
        laws::law_rounding_is_monotone((-v) as nat, 1, (-u) as nat, 1);
        laws::lemma_order(t, s);
    }
}

/// A rectangle holds a point and the way `h` from it in each direction.
pub open spec fn holds(r: Rect, p: Point, h: Scalar) -> bool {
    &&& r.x0.units() <= p.x.difference(h).units()
    &&& r.y0.units() <= p.y.difference(h).units()
    &&& p.x.sum(h).units() <= r.x1.units()
    &&& p.y.sum(h).units() <= r.y1.units()
}

/// A point lies in a rectangle.
pub open spec fn lies_in(p: Point, r: Rect) -> bool {
    &&& p.finite()
    &&& r.finite()
    &&& r.x0.units() <= p.x.units() <= r.x1.units()
    &&& r.y0.units() <= p.y.units() <= r.y1.units()
}

/// How far the ink of a stroke reaches to either side: `h` is at most half of its width.
pub open spec fn is_reach(h: Scalar, stroke: Option<Stroke>) -> bool {
    &&& h.finite()
    &&& h.units() >= 0
    &&& h.units() > 0 ==> (stroke matches Some(s) && s.width.finite() && 2 * h.units()
        <= s.width.units())
}

/// The room that a stroke gets is at least half of its width.
proof fn lemma_room(h: Scalar, w: Scalar)
    requires
        h.finite(),
        h.units() >= 0,
        w.finite(),
        w.units() > 0,
        2 * h.units() <= w.units(),
    ensures
        w.quotient(Scalar { bits: TWO_BITS }).finite(),
        h.units() <= w.quotient(Scalar { bits: TWO_BITS }).units(),
{
    let two = Scalar { bits: TWO_BITS };
    let u = digits::two_pow(1074);
    placement::lemma_half_finite(w);
    placement::lemma_two();
    digits::lemma_two_pow_positive(1074);
    let q = w.quotient(two);
    let n = w.abs_units() * u;
    let d = two.abs_units();
    assert(!q.negative() && q.magnitude() == arith::nearest(n, d)) by {
        reveal(Scalar::quotient);
        scalar::lemma_zero(two);
        arith::lemma_nearest_range(n, d);
        laws::lemma_signed_magnitude(false, arith::nearest(n, d));
    }
    let x = h.abs_units();
    assert(x * d <= n * 1) by (nonlinear_arith)
        requires
            2 * x <= w.abs_units(),
            d == 2 * u,
            n == w.abs_units() * u,
            u > 0,
    ;
    laws::law_rounding_keeps_numbers(h, 1);
    assert(x * 1 == x);
    laws::law_rounding_is_monotone(x, 1, n, d);
    laws::lemma_order(h, q);
}

/// A side with room keeps its distance, both ways.
proof fn lemma_side(lo: Scalar, hi: Scalar, pad: Scalar, x: Scalar, h: Scalar)
    requires
        lo.difference(pad).finite(),
        hi.sum(pad).finite(),
        x.finite(),
        h.finite(),
        0 <= h.units() <= pad.units(),
        lo.units() <= x.units() <= hi.units(),
    ensures
        lo.difference(pad).units() <= x.difference(h).units(),
        x.sum(h).units() <= hi.sum(pad).units(),
{
    let low = pad.negated();
    let back = h.negated();
    assert(back.magnitude() == h.magnitude() && back.units() == -h.units());
    assert(low.magnitude() == pad.magnitude() && low.units() == -pad.units());
    accuracy::law_sum_error(lo, low);
    accuracy::law_sum_error(hi, pad);
    law_sums_are_in_order(lo, low, x, back);
    law_sums_are_in_order(x, h, hi, pad);
}

/// A number less zero, and with zero, is the number.
proof fn lemma_no_room(x: Scalar, h: Scalar)
    requires
        x.finite(),
        h.finite(),
        h.units() == 0,
    ensures
        x.difference(h).units() == x.units(),
        x.sum(h).units() == x.units(),
{
    let back = h.negated();
    assert(back.magnitude() == h.magnitude() && back.units() == -h.units());
    laws::law_exact_sums_are_kept(x, back, x);
    laws::law_exact_sums_are_kept(x, h, x);
}

/// A point lies between the sides of a rectangle.
pub open spec fn between(p: Point, b: Rect) -> bool {
    b.x0.units() <= p.x.units() <= b.x1.units() && b.y0.units() <= p.y.units() <= b.y1.units()
}

/// A box with room for a stroke holds what the box holds, and the ink around it.
proof fn lemma_outset(b: Rect, stroke: Option<Stroke>, p: Point, h: Scalar)
    requires
        fit::outset(b, stroke).finite(),
        is_reach(h, stroke),
        p.finite(),
        between(p, b),
    ensures
        holds(fit::outset(b, stroke), p, h),
{
    scalar::lemma_zero(Scalar { bits: 0 });
    match fit::inset(stroke) {
        Some(pad) => {
            lemma_room(h, stroke->0.width);
            lemma_side(b.x0, b.x1, pad, p.x, h);
            lemma_side(b.y0, b.y1, pad, p.y, h);
        },
        None => {
            lemma_no_room(p.x, h);
            lemma_no_room(p.y, h);
        },
    }
}

/// The box of points holds each of them that is finite.
pub proof fn law_boxes_hold_their_points(points: Seq<Point>, i: int)
    requires
        0 <= i < points.len(),
        points[i].finite(),
    ensures
        fit::finite_points(points) matches Some(r) && lies_in(points[i], r),
    decreases points.len(),
{
    let rest = points.drop_last();
    fit::lemma_points_finite(rest);
    if i < points.len() - 1 {
        law_boxes_hold_their_points(rest, i);
    }
}

/// The sides of the box of points go through points.
pub proof fn law_boxes_are_tight(points: Seq<Point>) -> (at: (int, int, int, int))
    requires
        fit::finite_points(points) is Some,
    ensures
        ({
            let r = fit::finite_points(points)->0;
            &&& 0 <= at.0 < points.len() && points[at.0].x.units() == r.x0.units()
            &&& 0 <= at.1 < points.len() && points[at.1].y.units() == r.y0.units()
            &&& 0 <= at.2 < points.len() && points[at.2].x.units() == r.x1.units()
            &&& 0 <= at.3 < points.len() && points[at.3].y.units() == r.y1.units()
        }),
    decreases points.len(),
{
    let rest = points.drop_last();
    let n = points.len() - 1;
    fit::lemma_points_finite(rest);
    if fit::finite_points(rest) is Some {
        let a = law_boxes_are_tight(rest);
        let r = fit::finite_points(rest)->0;
        let p = points[n];
        if p.finite() {
            (
                if p.x.units() < r.x0.units() {
                    n
                } else {
                    a.0
                },
                if p.y.units() < r.y0.units() {
                    n
                } else {
                    a.1
                },
                if r.x1.units() < p.x.units() {
                    n
                } else {
                    a.2
                },
                if r.y1.units() < p.y.units() {
                    n
                } else {
                    a.3
                },
            )
        } else {
            a
        }
    } else {
        (n, n, n, n)
    }
}

/// The stroke along the edge of an element.
pub open spec fn edge(el: Element) -> Option<Stroke> {
    match el {
        Element::Rect { rect, style } => style.stroke,
        Element::RoundedRect { rect, radius, style } => style.stroke,
        Element::Circle { center, radius, style } => style.stroke,
        Element::Ellipse { center, radii, rotation, style } => style.stroke,
        Element::Line { start, end, style } => Some(style),
        Element::Polyline { points, style } => Some(style),
        Element::Polygon { points, style } => style.stroke,
        Element::Arc { center, radii, start_angle, sweep_angle, style } => Some(style),
        Element::Pie { center, radius, start_angle, sweep_angle, style } => style.stroke,
        Element::Path { path, style, closed } => style.stroke,
        Element::GradientPath { path, gradient, stroke } => stroke,
        _ => None,
    }
}

/// One of the corners of a rectangle.
pub open spec fn is_corner(p: Point, r: Rect) -> bool {
    (p.x == r.x0 || p.x == r.x1) && (p.y == r.y0 || p.y == r.y1)
}

/// A point is one of those that an element is drawn through; for an arc `n` tells which of the
/// given directions.
pub open spec fn is_drawn(p: Point, el: Element, m: Measure, n: int) -> bool {
    match el {
        Element::Rect { rect, style } => is_corner(p, rect),
        Element::RoundedRect { rect, radius, style } => is_corner(p, rect),
        Element::Circle { center, radius, style } => is_side(p, center, radius),
        Element::Pie { center, radius, start_angle, sweep_angle, style } => is_side(
            p,
            center,
            radius,
        ),
        Element::Line { start, end, style } => p == start || p == end,
        Element::Polyline { points, style } => 0 <= n < points@.len() && p == points@[n],
        Element::Polygon { points, style } => 0 <= n < points@.len() && p == points@[n],
        Element::Arc { center, radii, start_angle, sweep_angle, style } => 0 <= n
            < m.directions@.len() && p.x == center.x.sum(
            radii.x.absolute().product(m.directions@[n].x),
        ) && p.y == center.y.sum(radii.y.absolute().product(m.directions@[n].y)),
        Element::Ellipse { center, radii, rotation, style } => m.bounds matches Some(b)
            && is_corner(p, b),
        Element::Path { path, style, closed } => m.bounds matches Some(b) && is_corner(p, b),
        Element::GradientPath { path, gradient, stroke } => m.bounds matches Some(b) && is_corner(
            p,
            b,
        ),
        Element::Image { image, frame, opacity } => is_corner(p, frame),
        _ => false,
    }
}

/// One of the points of a circle farthest to a side.
pub open spec fn is_side(p: Point, center: Point, radius: Scalar) -> bool {
    let r = radius.absolute();
    ||| p == (Point { x: center.x.difference(r), y: center.y })
    ||| p == (Point { x: center.x.sum(r), y: center.y })
    ||| p == (Point { x: center.x, y: center.y.difference(r) })
    ||| p == (Point { x: center.x, y: center.y.sum(r) })
}

/// A measured box has its sides in order.
pub open spec fn in_order(m: Measure) -> bool {
    m.bounds matches Some(b) ==> b.x0.units() <= b.x1.units() && b.y0.units() <= b.y1.units()
}

/// The box of an element holds every point that it is drawn through, and the ink of its stroke
/// around it.
pub proof fn law_boxes_hold_their_elements(
    el: &Element,
    m: &Measure,
    b: Option<Rect>,
    p: Point,
    n: int,
    h: Scalar,
)
    requires
        call_ensures(fit::element_bounds, (el, m), b),
        b is Some,
        is_drawn(p, *el, *m, n),
        p.finite(),
        is_reach(h, edge(*el)),
        in_order(*m),
    ensures
        holds(b->0, p, h),
{
    let base = lemma_base(*el, *m, p, n);
    assert(!(el is Group));
    let r = fit::primitive_rect(*el, m.facts());
    assert(r == Some(fit::outset(base, edge(*el))));
    lemma_finite_outset(base, edge(*el));
    lemma_drawn(*el, *m, p, n, base);
    lemma_outset(base, edge(*el), p, h);
}

/// The box of an element before it gets room for its stroke.
spec fn is_base(el: Element, m: Measure, base: Rect) -> bool {
    match el {
        Element::Rect { rect, style } => base == fit::in_order(rect),
        Element::RoundedRect { rect, radius, style } => base == fit::in_order(rect),
        Element::Circle { center, radius, style } => base == around(center, radius),
        Element::Pie { center, radius, start_angle, sweep_angle, style } => base == around(
            center,
            radius,
        ),
        Element::Line { start, end, style } => base == (Rect {
            x0: start.x,
            y0: start.y,
            x1: end.x,
            y1: end.y,
        }).ordered(),
        Element::Polyline { points, style } => fit::finite_points(points@) == Some(base),
        Element::Polygon { points, style } => fit::finite_points(points@) == Some(base),
        Element::Arc { center, radii, start_angle, sweep_angle, style } => base == fit::arc_rect(
            center,
            radii,
            m.directions@,
        ),
        Element::Image { image, frame, opacity } => base == fit::image_rect(
            frame,
            image.object_fit,
            image.pixmap.columns(),
            image.pixmap.rows(),
        ),
        _ => m.bounds == Some(base),
    }
}

spec fn around(center: Point, radius: Scalar) -> Rect {
    let r = radius.absolute();
    Rect {
        x0: center.x.difference(r),
        y0: center.y.difference(r),
        x1: center.x.sum(r),
        y1: center.y.sum(r),
    }
}

proof fn lemma_base(el: Element, m: Measure, p: Point, n: int) -> (base: Rect)
    requires
        is_drawn(p, el, m, n),
        p.finite(),
        fit::primitive_rect(el, m.facts()) is Some,
    ensures
        is_base(el, m, base),
        fit::primitive_rect(el, m.facts()) == Some(fit::outset(base, edge(el))),
{
    reveal(fit::primitive_rect);
    match el {
        Element::Rect { rect, style } => fit::in_order(rect),
        Element::RoundedRect { rect, radius, style } => fit::in_order(rect),
        Element::Circle { center, radius, style } => around(center, radius),
        Element::Pie { center, radius, start_angle, sweep_angle, style } => around(center, radius),
        Element::Line { start, end, style } => (Rect {
            x0: start.x,
            y0: start.y,
            x1: end.x,
            y1: end.y,
        }).ordered(),
        Element::Polyline { points, style } => fit::finite_points(points@)->0,
        Element::Polygon { points, style } => fit::finite_points(points@)->0,
        Element::Arc { center, radii, start_angle, sweep_angle, style } => fit::arc_rect(
            center,
            radii,
            m.directions@,
        ),
        Element::Image { image, frame, opacity } => fit::image_rect(
            frame,
            image.object_fit,
            image.pixmap.columns(),
            image.pixmap.rows(),
        ),
        _ => m.bounds->0,
    }
}

/// What an element is drawn through lies between the sides of its box.
proof fn lemma_drawn(el: Element, m: Measure, p: Point, n: int, base: Rect)
    requires
        is_drawn(p, el, m, n),
        p.finite(),
        in_order(m),
        is_base(el, m, base),
        base.finite(),
    ensures
        between(p, base),
{
    match el {
        Element::Circle { center, radius, style } => {
            lemma_around(center, radius, p);
        },
        Element::Pie { center, radius, start_angle, sweep_angle, style } => {
            lemma_around(center, radius, p);
        },
        Element::Polyline { points, style } => {
            law_boxes_hold_their_points(points@, n);
        },
        Element::Polygon { points, style } => {
            law_boxes_hold_their_points(points@, n);
        },
        Element::Arc { center, radii, start_angle, sweep_angle, style } => {
            let points = fit::ellipse_points(center, radii, m.directions@);
            assert(points[n] == p);
            law_boxes_hold_their_points(points, n);
        },
        Element::Rect { rect, style } => {
            lemma_corner(p, rect);
        },
        Element::RoundedRect { rect, radius, style } => {
            lemma_corner(p, rect);
        },
        Element::Line { start, end, style } => {
            let r = Rect { x0: start.x, y0: start.y, x1: end.x, y1: end.y };
            lemma_ordered(p.x, r.x0, r.x1);
            lemma_ordered(p.y, r.y0, r.y1);
        },
        Element::Image { image, frame, opacity } => {
            lemma_framed(
                p,
                frame,
                image.object_fit,
                image.pixmap.columns(),
                image.pixmap.rows(),
            );
        },
        _ => {},
    }
}

/// One of two numbers lies between the lesser and the greater.
proof fn lemma_ordered(x: Scalar, a: Scalar, b: Scalar)
    requires
        x == a || x == b,
        x.finite(),
        a.least(b).finite(),
        a.greatest(b).finite(),
    ensures
        a.least(b).units() <= x.units() <= a.greatest(b).units(),
{
}

/// The corners of a rectangle lie between its sides, put in order.
proof fn lemma_corner(p: Point, r: Rect)
    requires
        is_corner(p, r),
        p.finite(),
        fit::in_order(r).finite(),
    ensures
        between(p, fit::in_order(r)),
{
    lemma_twice(p.x, r.x0, r.x1);
    lemma_twice(p.y, r.y0, r.y1);
}

proof fn lemma_twice(x: Scalar, a: Scalar, b: Scalar)
    requires
        x == a || x == b,
        x.finite(),
        a.least(b).least(a.greatest(b)).finite(),
        a.greatest(b).greatest(a.least(b)).finite(),
    ensures
        a.least(b).least(a.greatest(b)).units() <= x.units(),
        x.units() <= a.greatest(b).greatest(a.least(b)).units(),
{
}

/// The corners of a frame lie in the box of its image.
proof fn lemma_framed(p: Point, frame: Rect, mode: ObjectFit, columns: u32, rows: u32)
    requires
        is_corner(p, frame),
        p.finite(),
        fit::image_rect(frame, mode, columns, rows).finite(),
    ensures
        between(p, fit::image_rect(frame, mode, columns, rows)),
{
    let r = fit::in_order(frame);
    lemma_twice_finite(p.x, frame.x0, frame.x1);
    lemma_twice_finite(p.y, frame.y0, frame.y1);
    if mode == ObjectFit::Original {
        let o = r.ordered();
        let more = Rect {
            x0: o.x0,
            y0: o.y0,
            x1: o.x0.sum(Scalar::integer(columns as nat)),
            y1: o.y0.sum(Scalar::integer(rows as nat)),
        }.ordered();
        lemma_joined(p.x, r.x0, r.x1, more.x0, more.x1);
        lemma_joined(p.y, r.y0, r.y1, more.y0, more.y1);
    }
}

proof fn lemma_twice_finite(x: Scalar, a: Scalar, b: Scalar)
    requires
        x == a || x == b,
        x.finite(),
    ensures
        ({
            let lo = a.least(b).least(a.greatest(b));
            let hi = a.greatest(b).greatest(a.least(b));
            !lo.nan() && !hi.nan() && lo.units() <= x.units() <= hi.units()
        }),
{
}

proof fn lemma_joined(x: Scalar, a: Scalar, b: Scalar, c: Scalar, d: Scalar)
    requires
        !a.nan(),
        !b.nan(),
        a.units() <= x.units() <= b.units(),
        a.least(c).finite(),
        b.greatest(d).finite(),
    ensures
        a.least(c).units() <= x.units() <= b.greatest(d).units(),
{
}

/// A finite box with room comes from a finite box.
proof fn lemma_finite_outset(b: Rect, stroke: Option<Stroke>)
    requires
        fit::outset(b, stroke).finite(),
    ensures
        b.finite(),
{
    if let Some(pad) = fit::inset(stroke) {
        let low = pad.negated();
        accuracy::law_sum_error(b.x0, low);
        accuracy::law_sum_error(b.y0, low);
        accuracy::law_sum_error(b.x1, pad);
        accuracy::law_sum_error(b.y1, pad);
    }
}

/// The farthest points of a circle lie between the sides of its box.
proof fn lemma_around(center: Point, radius: Scalar, p: Point)
    requires
        around(center, radius).finite(),
        is_side(p, center, radius),
    ensures
        between(p, around(center, radius)),
{
    let r = radius.absolute();
    let back = r.negated();
    assert(back.magnitude() == r.magnitude() && r.units() >= 0);
    accuracy::law_sum_error(center.x, r);
    accuracy::law_sum_error(center.y, r);
    laws::law_adding_does_not_shrink(center.x, r);
    laws::law_adding_does_not_shrink(center.y, r);
}

/// Products with numbers of the same value have the same value.
proof fn lemma_same_product(a: Scalar, x: Scalar, y: Scalar)
    requires
        x.finite(),
        y.finite(),
        x.units() == y.units(),
        a.product(x).finite(),
    ensures
        a.product(y).finite(),
        a.product(y).units() == a.product(x).units(),
{
    accuracy::law_product_error(a, x);
    laws::lemma_order(x, y);
    laws::lemma_order(y, x);
    if x.units() != 0 {
        laws::lemma_signed(x);
        laws::lemma_signed(y);
    } else {
        scalar::lemma_zero(x);
        scalar::lemma_zero(y);
        laws::law_zero_absorbs(a, x);
        laws::law_zero_absorbs(a, y);
        scalar::lemma_zero(a.product(x));
        scalar::lemma_zero(a.product(y));
    }
}

/// Sums of numbers of the same values have the same value.
proof fn lemma_same_sum(a: Scalar, b: Scalar, c: Scalar, d: Scalar)
    requires
        a.sum(b).finite(),
        c.finite(),
        d.finite(),
        a.units() == c.units(),
        b.units() == d.units(),
    ensures
        c.sum(d).finite(),
        c.sum(d).units() == a.sum(b).units(),
{
    accuracy::law_sum_error(a, b);
    laws::lemma_sum_value(a, b);
    laws::lemma_sum_value(c, d);
    law_sums_are_in_order(a, b, c, d);
    law_sums_are_in_order(c, d, a, b);
    let u = a.units() + b.units();
    if u != 0 {
        assert(a.sum(b).magnitude() == c.sum(d).magnitude());
    }
}

/// A coordinate of the image of a point of the same place.
proof fn lemma_same_row(a: Scalar, c: Scalar, e: Scalar, p: Point, q: Point)
    requires
        a.product(p.x).sum(c.product(p.y)).sum(e).finite(),
        q.finite(),
        p.finite(),
        p.x.units() == q.x.units(),
        p.y.units() == q.y.units(),
    ensures
        a.product(q.x).sum(c.product(q.y)).sum(e).finite(),
        a.product(q.x).sum(c.product(q.y)).sum(e).units() == a.product(p.x).sum(
            c.product(p.y),
        ).sum(e).units(),
{
    accuracy::law_sum_error(a.product(p.x).sum(c.product(p.y)), e);
    accuracy::law_sum_error(a.product(p.x), c.product(p.y));
    lemma_same_product(a, p.x, q.x);
    lemma_same_product(c, p.y, q.y);
    lemma_same_sum(a.product(p.x), c.product(p.y), a.product(q.x), c.product(q.y));
    lemma_same_sum(
        a.product(p.x).sum(c.product(p.y)),
        e,
        a.product(q.x).sum(c.product(q.y)),
        e,
    );
}

/// A point moved about the origin goes where the transform takes it.
proof fn lemma_about_origin(t: Transform, p: Point)
    requires
        p.finite(),
        t.image(p).finite(),
    ensures
        ({
            let origin = Point { x: Scalar { bits: 0 }, y: Scalar { bits: 0 } };
            let q = fit::moved(t, p, origin);
            &&& q.finite()
            &&& q.x.units() == t.image(p).x.units()
            &&& q.y.units() == t.image(p).y.units()
        }),
{
    let zero = Scalar { bits: 0 };
    scalar::lemma_zero(zero);
    lemma_no_room(p.x, zero);
    lemma_no_room(p.y, zero);
    let back = zero.negated();
    assert(back.magnitude() == 0);
    laws::lemma_plus_zero(p.x, back);
    laws::lemma_plus_zero(p.y, back);
    let c = Point { x: p.x.difference(zero), y: p.y.difference(zero) };
    lemma_same_row(t.a, t.c, t.e, p, c);
    lemma_same_row(t.b, t.d, t.f, p, c);
    let q = t.image(c);
    laws::lemma_plus_zero(q.x, zero);
    laws::lemma_plus_zero(q.y, zero);
}

/// The box of a moved box holds the image of each of its corners.
pub proof fn law_moved_boxes_hold_each_corner(t: &Transform, r: Rect, b: Rect, p: Point)
    requires
        call_ensures(fit::transform_box, (t, r), b),
        r.finite(),
        is_corner(p, r),
        t.image(p).finite(),
    ensures
        lies_in(t.image(p), b),
{
    lemma_moved_box(*t, r, p);
}

proof fn lemma_moved_box(t: Transform, r: Rect, p: Point)
    requires
        r.finite(),
        is_corner(p, r),
        t.image(p).finite(),
    ensures
        lies_in(t.image(p), fit::moved_box(t, r)),
{
    let origin = Point { x: Scalar { bits: 0 }, y: Scalar { bits: 0 } };
    let points = fit::moved_corners(t, r, origin);
    let o = r.ordered();
    lemma_about_origin(t, p);
    let i: int = if p.x.units() == o.x0.units() {
        if p.y.units() == o.y0.units() {
            0
        } else {
            3
        }
    } else {
        if p.y.units() == o.y0.units() {
            1
        } else {
            2
        }
    };
    let c = if i == 0 {
        Point { x: o.x0, y: o.y0 }
    } else if i == 1 {
        Point { x: o.x1, y: o.y0 }
    } else if i == 2 {
        Point { x: o.x1, y: o.y1 }
    } else {
        Point { x: o.x0, y: o.y1 }
    };
    assert(c.finite() && c.x.units() == p.x.units() && c.y.units() == p.y.units());
    lemma_same_row(t.a, t.c, t.e, p, c);
    lemma_same_row(t.b, t.d, t.f, p, c);
    lemma_about_origin(t, c);
    assert(points[i] == fit::moved(t, c, origin));
    law_boxes_hold_their_points(points, i);
}

/// The box of a visible node is that of its element, moved by its transform where it has one; a
/// hidden node has none.
pub proof fn law_node_boxes_are_moved(
    node: &SceneNode,
    m: &Measure,
    e: Option<Rect>,
    b: Option<Rect>,
    p: Point,
)
    requires
        call_ensures(fit::element_bounds, (&node.element, m), e),
        call_ensures(fit::node_bounds, (node, m), b),
    ensures
        !node.visible ==> b is None,
        node.visible ==> (b is Some <==> e is Some),
        node.visible && node.transform is None ==> b == e,
        node.visible && e is Some && is_corner(p, e->0) ==> (node.transform matches Some(t) ==> (
        t.image(p).finite() ==> lies_in(t.image(p), b->0))),
{
    if node.visible && e is Some && is_corner(p, e->0) {
        if let Some(t) = node.transform {
            if t.image(p).finite() {
                lemma_sound_finite(node.element, m.facts(), m.children@);
                lemma_moved_box(t, e->0, p);
            }
        }
    }
}

proof fn lemma_sound_finite(el: Element, f: Facts, ms: Seq<Measure>)
    ensures
        fit::element_rect(el, f, ms) matches Some(r) ==> r.finite(),
{
}

/// Boxes of nodes are finite.
proof fn lemma_nodes_finite(nodes: Seq<SceneNode>, ms: Seq<Measure>)
    ensures
        fit::nodes_rect(nodes, ms, nodes.len()) matches Some(r) ==> r.finite(),
{
    if nodes.len() > 0 {
        fit::law_bounds_cover_each_node(nodes, ms, nodes.len(), 0);
    }
}

/// The box of a layer is finite.
proof fn lemma_layer_finite(layer: Layer, ms: Seq<Measure>)
    ensures
        fit::layer_rect(layer, ms) matches Some(r) ==> r.finite(),
{
    lemma_nodes_finite(layer.nodes@, ms);
    if let Some(t) = layer.transform {
        if let Some(r) = fit::nodes_rect(layer.nodes@, ms, layer.nodes@.len()) {
            let origin = Point { x: Scalar { bits: 0 }, y: Scalar { bits: 0 } };
            fit::lemma_points_finite(fit::moved_corners(t, r, origin));
        }
    }
}

/// The boxes of a scene are finite.
proof fn lemma_boxes_finite(s: Scene, m: SceneMeasure, n: nat)
    ensures
        forall|i: int|
            0 <= i < fit::scene_boxes(s, m, n).len() ==> (#[trigger] fit::scene_boxes(
                s,
                m,
                n,
            )[i]).finite(),
    decreases n,
{
    lemma_nodes_finite(s.nodes@, m.nodes@);
    if 0 < n <= s.layers@.len() {
        let i = n - 1;
        lemma_boxes_finite(s, m, i as nat);
        lemma_layer_finite(s.layers@[i], fit::layer_measures(m.layers@, i));
        let before = fit::scene_boxes(s, m, i as nat);
        let all = fit::scene_boxes(s, m, n);
        assert forall|j: int| 0 <= j < all.len() implies (#[trigger] all[j]).finite() by {
            if j < before.len() {
                assert(all[j] == before[j]);
            }
        }
    }
}

/// The box of boxes covers each of them.
proof fn lemma_union(boxes: Seq<Rect>, i: int)
    requires
        0 <= i < boxes.len(),
        forall|j: int| 0 <= j < boxes.len() ==> (#[trigger] boxes[j]).finite(),
    ensures
        fit::union_of(boxes) matches Some(b) && fit::covers(b, boxes[i]),
    decreases boxes.len(),
{
    let rest = boxes.drop_last();
    assert forall|j: int| 0 <= j < rest.len() implies (#[trigger] rest[j]).finite() by {
        assert(rest[j] == boxes[j]);
    }
    if i < boxes.len() - 1 {
        lemma_union(rest, i);
    } else if rest.len() > 0 {
        lemma_union(rest, 0);
    }
}

/// Where the box of a layer stands in the list.
proof fn lemma_listed(s: Scene, m: SceneMeasure, n: nat, i: int) -> (at: int)
    requires
        0 <= i < n <= s.layers@.len(),
        fit::layer_rect(s.layers@[i], fit::layer_measures(m.layers@, i)) is Some,
    ensures
        0 <= at < fit::scene_boxes(s, m, n).len(),
        Some(fit::scene_boxes(s, m, n)[at]) == fit::layer_rect(
            s.layers@[i],
            fit::layer_measures(m.layers@, i),
        ),
    decreases n,
{
    if i < n - 1 {
        lemma_listed(s, m, (n - 1) as nat, i)
    } else {
        fit::scene_boxes(s, m, (n - 1) as nat).len() as int
    }
}

/// The box of a scene covers the boxes of its visible layers, each moved by the transform of the
/// layer where it has one.
pub proof fn law_scene_boxes_cover_visible_layers(
    s: &Scene,
    m: &SceneMeasure,
    b: Option<Rect>,
    i: int,
    p: Point,
)
    requires
        call_ensures(fit::scene_bounds, (s, m), b),
        0 <= i < s.layers@.len(),
        s.layers@[i].visible,
        ({
            let layer = s.layers@[i];
            let ms = fit::layer_measures(m.layers@, i);
            fit::nodes_rect(layer.nodes@, ms, layer.nodes@.len()) matches Some(r) && is_corner(p, r)
        }),
        s.layers@[i].transform matches Some(t) ==> t.image(p).finite(),
    ensures
        b is Some,
        match s.layers@[i].transform {
            Some(t) => lies_in(t.image(p), b->0),
            None => fit::covers(
                b->0,
                fit::nodes_rect(
                    s.layers@[i].nodes@,
                    fit::layer_measures(m.layers@, i),
                    s.layers@[i].nodes@.len(),
                )->0,
            ),
        },
{
    let layer = s.layers@[i];
    let ms = fit::layer_measures(m.layers@, i);
    let r = fit::nodes_rect(layer.nodes@, ms, layer.nodes@.len())->0;
    lemma_nodes_finite(layer.nodes@, ms);
    let n = s.layers@.len();
    let at = lemma_listed(*s, *m, n, i);
    lemma_boxes_finite(*s, *m, n);
    let boxes = fit::scene_boxes(*s, *m, n);
    lemma_union(boxes, at);
    match layer.transform {
        Some(t) => {
            lemma_moved_box(t, r, p);
        },
        None => {},
    }
}

/// The box of a scene covers that of its nodes.
pub proof fn law_scene_boxes_cover_their_nodes(s: &Scene, m: &SceneMeasure, b: Option<Rect>)
    requires
        call_ensures(fit::scene_bounds, (s, m), b),
        fit::nodes_rect(s.nodes@, m.nodes@, s.nodes@.len()) is Some,
    ensures
        b matches Some(b) && fit::covers(
            b,
            fit::nodes_rect(s.nodes@, m.nodes@, s.nodes@.len())->0,
        ),
{
    let n = s.layers@.len();
    lemma_boxes_finite(*s, *m, n);
    lemma_first(*s, *m, n);
    lemma_union(fit::scene_boxes(*s, *m, n), 0);
}

proof fn lemma_first(s: Scene, m: SceneMeasure, n: nat)
    requires
        n <= s.layers@.len(),
        fit::nodes_rect(s.nodes@, m.nodes@, s.nodes@.len()) is Some,
    ensures
        fit::scene_boxes(s, m, n).len() > 0,
        Some(fit::scene_boxes(s, m, n)[0]) == fit::nodes_rect(s.nodes@, m.nodes@, s.nodes@.len()),
    decreases n,
{
    if n > 0 {
        lemma_first(s, m, (n - 1) as nat);
    }
}

} // verus!
