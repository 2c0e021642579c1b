//! What paths go through, and where transforms take them.

use vstd::prelude::*;
use vstd::math::abs;
use crate::arith;
use crate::boxes;
use crate::composition;
use crate::composition::{least, near, unit};
use crate::digits;
use crate::ellipse;
use crate::geometry::{Point, Rect, Transform, Vec2, TWO_BITS};
use crate::laws;
use crate::path::{BezPath, PathEl};
use crate::path2d;
use crate::render::raster;
use crate::scalar;
use crate::scalar::{Scalar, ONE_BITS};
use crate::sketch::rough;

verus! {

/// A transform takes a point to the sum of its columns, weighted by the coordinates, up to six
/// parts in `2^53` of the terms and some of the smallest numbers.
pub proof fn law_images_are_sums_of_columns(t: &Transform, p: Point, q: Point)
    requires
        call_ensures(Transform::apply_point, (t, p), q),
        q.finite(),
    ensures
        ({
            let (x, y) = (p.x.units(), p.y.units());
            &&& near(
                q.x.units(),
                unit(),
                t.a.units() * x + t.c.units() * y + t.e.units() * unit(),
                abs(t.a.units()) * abs(x) + abs(t.c.units()) * abs(y) + abs(t.e.units()) * unit(),
                6,
                8 * least(),
            )
            &&& near(
                q.y.units(),
                unit(),
                t.b.units() * x + t.d.units() * y + t.f.units() * unit(),
                abs(t.b.units()) * abs(x) + abs(t.d.units()) * abs(y) + abs(t.f.units()) * unit(),
                6,
                8 * least(),
            )
        }),
{
    composition::lemma_row(t.a, t.c, t.e, p.x, p.y);
    composition::lemma_row(t.b, t.d, t.f, p.x, p.y);
}

/// The points of a path are moved one by one, and its elements stay what they are.
pub proof fn law_paths_are_moved_point_by_point(path: &BezPath, t: &Transform, r: BezPath, i: int)
    requires
        call_ensures(BezPath::transformed, (path, t), r),
        0 <= i < path@.len(),
    ensures
        r@.len() == path@.len(),
        match (path@[i], r@[i]) {
            (PathEl::MoveTo(p), PathEl::MoveTo(q)) => q == t.image(p),
            (PathEl::LineTo(p), PathEl::LineTo(q)) => q == t.image(p),
            (PathEl::QuadTo(a, p), PathEl::QuadTo(b, q)) => b == t.image(a) && q == t.image(p),
            (PathEl::CurveTo(a, b, p), PathEl::CurveTo(c, d, q)) => c == t.image(a) && d == t.image(
                b,
            ) && q == t.image(p),
            (PathEl::ClosePath, PathEl::ClosePath) => true,
            _ => false,
        },
{
}

/// A closed path round four corners, from one along the sides.
pub open spec fn goes_round(els: Seq<PathEl>, a: Point, c: Point) -> bool {
    &&& els.len() == 5
    &&& els[0] == PathEl::MoveTo(a)
    &&& els[1] == PathEl::LineTo(Point { x: c.x, y: a.y })
    &&& els[2] == PathEl::LineTo(c)
    &&& els[3] == PathEl::LineTo(Point { x: a.x, y: c.y })
    &&& els[4] == PathEl::ClosePath
}

/// The outline of a rectangle goes round it, from its least corner by its greatest one.
pub proof fn law_rectangles_are_gone_round(r: Rect, p: BezPath) -> (ends: (Point, Point))
    requires
        call_ensures(raster::rect_path, (r,), p),
        r.finite(),
    ensures
        goes_round(p@, ends.0, ends.1),
        boxes::is_corner(ends.0, r),
        boxes::is_corner(ends.1, r),
        ends.0.x.units() <= r.x0.units() <= ends.1.x.units(),
        ends.0.x.units() <= r.x1.units() <= ends.1.x.units(),
        ends.0.y.units() <= r.y0.units() <= ends.1.y.units(),
        ends.0.y.units() <= r.y1.units() <= ends.1.y.units(),
{
    let o = r.ordered();
    (Point { x: o.x0, y: o.y0 }, Point { x: o.x1, y: o.y1 })
}

/// A rectangle of a path goes from its corner by the one its size away.
pub proof fn law_boxes_go_from_their_corner(x: Scalar, y: Scalar, w: Scalar, h: Scalar)
    ensures
        goes_round(
            path2d::box_els(x, y, w, h),
            Point { x, y },
            Point { x: x.sum(w), y: y.sum(h) },
        ),
{
}

/// The corners of a rectangle come in turn: each shares a side with the next.
pub proof fn law_corners_come_in_turn(r: Rect, points: Vec<Point>)
    requires
        call_ensures(rough::rect_points, (r,), points),
        r.finite(),
    ensures
        points@.len() == 4,
        forall|i: int| 0 <= i < 4 ==> boxes::is_corner(#[trigger] points@[i], r),
        points@[0].y == points@[1].y,
        points@[1].x == points@[2].x,
        points@[2].y == points@[3].y,
        points@[3].x == points@[0].x,
        points@[0].x.units() <= r.x0.units() <= points@[2].x.units(),
        points@[0].x.units() <= r.x1.units() <= points@[2].x.units(),
        points@[0].y.units() <= r.y0.units() <= points@[2].y.units(),
        points@[0].y.units() <= r.y1.units() <= points@[2].y.units(),
{
}

/// A path through points starts at the first and goes on in lines through the others; that of a
/// polygon is closed.
pub proof fn law_paths_go_through_their_points(
    points: &Vec<Point>,
    open: BezPath,
    closed: BezPath,
    i: int,
)
    requires
        call_ensures(raster::line_path, (points,), open),
        call_ensures(raster::polygon_path, (points,), closed),
        0 <= i < points@.len(),
    ensures
        open@.len() == points@.len(),
        open@[i] == if i == 0 {
            PathEl::MoveTo(points@[i])
        } else {
            PathEl::LineTo(points@[i])
        },
        closed@.len() == points@.len() + 1,
        closed@[i] == open@[i],
        closed@.last() == PathEl::ClosePath,
{
}

/// The samples of an arc are on its ellipse.
pub proof fn law_samples_are_on_the_ellipse(
    center: Point,
    radii: Vec2,
    turn: Vec2,
    directions: &Vec<Vec2>,
    points: Vec<Point>,
    i: int,
    x: bool,
)
    requires
        call_ensures(rough::sample_arc, (center, radii, turn, directions), points),
        0 <= i < directions@.len(),
        ellipse::is_direction(turn),
        ellipse::is_direction(directions@[i]),
        ellipse::coordinate(points@[i], x).finite(),
    ensures
        points@.len() == directions@.len(),
        ({
            let c = ellipse::coordinate(center, x);
            let u2 = unit() * unit();
            near(
                ellipse::coordinate(points@[i], x).units(),
                u2,
                c.units() * u2 + ellipse::turned(
                    ellipse::sizes(radii),
                    ellipse::pair(directions@[i]),
                    ellipse::shares(turn, x),
                ),
                ellipse::extent(c, radii.x, radii.y) * u2,
                8,
                24 * (unit() * least()),
            )
        }),
{
    let (rx, ry) = (radii.x.absolute(), radii.y.absolute());
    let d = directions@[i];
    assert(points@[i] == path2d::arc_at(center, rx, ry, turn, d));
    ellipse::law_arc_points_are_on_the_ellipse(center, radii, turn, d, x);
    assert(rx.magnitude() == radii.x.magnitude());
    assert(ry.magnitude() == radii.y.magnitude());
    let c = ellipse::coordinate(center, x);
    assert(ellipse::extent(c, rx, ry) == ellipse::extent(c, radii.x, radii.y));
}

/// The samples of an arc start where it starts and end where it ends.
pub proof fn law_samples_run_from_start_to_end(
    radii: Vec2,
    root: Scalar,
    start: Scalar,
    sweep: Scalar,
    step: Scalar,
    angles: Vec<Scalar>,
)
    requires
        call_ensures(rough::arc_sample_angles, (radii, root, start, sweep, step), angles),
        start.finite(),
        sweep.finite(),
        angles@.len() >= 2,
    ensures
        angles@.len() <= 65,
        angles@[0].units() == start.units(),
        angles@.last() == start.sum(sweep),
{
    let n = rough::arc_steps(radii, root, sweep, step);
    reveal(Scalar::truncated);
    assert(n <= 64);
    assert(angles@.len() == n + 1);
    lemma_none_of(n);
    lemma_all_of(n);
    laws::law_one_is_neutral(sweep);
    let z = Scalar::integer(0).quotient(Scalar::integer(n));
    laws::law_zero_absorbs(sweep, z);
    laws::lemma_plus_zero(start, sweep.product(z));
}

/// None of some is nothing.
proof fn lemma_none_of(n: nat)
    requires
        1 <= n <= 64,
    ensures
        Scalar::integer(0).quotient(Scalar::integer(n)).magnitude() == 0,
{
    reveal(Scalar::quotient);
    laws::law_small_integers_are_exact(0);
    laws::law_small_integers_are_exact(n);
    let u = unit();
    digits::lemma_two_pow_positive(1074);
    let (a, b) = (Scalar::integer(0), Scalar::integer(n));
    assert(0 * u == 0);
    assert(n * u > 0) by (nonlinear_arith)
        requires
            n >= 1,
            u > 0,
    ;
    scalar::lemma_zero(a);
    scalar::lemma_zero(b);
    arith::lemma_nearest_zero(b.abs_units());
    laws::lemma_signed_magnitude(false, 0);
}

/// All of some is one.
proof fn lemma_all_of(n: nat)
    requires
        1 <= n <= 64,
    ensures
        Scalar::integer(n).quotient(Scalar::integer(n)) == (Scalar { bits: ONE_BITS }),
{
    reveal(Scalar::quotient);
    laws::law_small_integers_are_exact(n);
    laws::lemma_one();
    let u = unit();
    digits::lemma_two_pow_positive(1074);
    let b = Scalar::integer(n);
    let one = Scalar { bits: ONE_BITS };
    assert(n * u > 0) by (nonlinear_arith)
        requires
            n >= 1,
            u > 0,
    ;
    scalar::lemma_zero(b);
    let x = b.abs_units();
    assert(x * u == u * x) by (nonlinear_arith);
    laws::law_rounding_keeps_numbers(one, x);
    laws::lemma_signed(one);
}

/// The radius of rounded corners is that which was asked for, or the most that leaves room: half
/// of the shorter side.
pub proof fn law_corners_have_room(rect: Rect, radius: Scalar, r: (Rect, Scalar), half: Scalar)
    requires
        call_ensures(rough::rounded_outline, (rect, radius), r),
        r.0.finite(),
        radius.finite(),
        ({
            let w = r.0.x1.difference(r.0.x0);
            let h = r.0.y1.difference(r.0.y0);
            w.finite() && h.finite() && half == w.least(h).quotient(Scalar { bits: TWO_BITS })
        }),
        half.finite(),
        half.units() >= 0,
    ensures
        0 <= r.1.units() <= radius.abs_units(),
        r.1.units() <= half.units(),
        r.1.units() == radius.abs_units() || r.1.units() == half.units(),
{
    let a = radius.absolute();
    assert(a.magnitude() == radius.magnitude() && a.units() == radius.abs_units());
    scalar::lemma_zero(Scalar { bits: 0 });
}

} // verus!
