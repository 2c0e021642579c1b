//! Where the shapes of a drawing context stand.

use vstd::prelude::*;
use crate::builder::Ctx;
use crate::geometry::Rect;
use crate::scalar::Scalar;
use crate::scene::{Element, SceneNode};

verus! {

/// A rectangle has its first corner at a point, and its second one by a size from it.
pub open spec fn spans(r: Rect, x: Scalar, y: Scalar, w: Scalar, h: Scalar) -> bool {
    r.x0 == x && r.y0 == y && r.x1 == x.sum(w) && r.y1 == y.sum(h)
}

/// Rectangles stand at their corner and have their size; only what the name of the operation says
/// is painted.
pub proof fn law_rectangles_stand_at_their_corner(
    ctx: &Ctx,
    x: Scalar,
    y: Scalar,
    w: Scalar,
    h: Scalar,
    radius: Scalar,
    filled: SceneNode,
    lined: SceneNode,
    both: SceneNode,
    round: SceneNode,
)
    requires
        call_ensures(Ctx::fill_rect, (ctx, x, y, w, h), filled),
        call_ensures(Ctx::stroke_rect, (ctx, x, y, w, h), lined),
        call_ensures(Ctx::fill_stroke_rect, (ctx, x, y, w, h), both),
        call_ensures(Ctx::round_rect, (ctx, x, y, w, h, radius), round),
    ensures
        filled.element matches Element::Rect { rect, style } && spans(rect, x, y, w, h)
            && style.stroke is None && (style.fill is Some <==> ctx.fill is Some),
        lined.element matches Element::Rect { rect, style } && spans(rect, x, y, w, h)
            && style.stroke is Some && style.fill is None,
        both.element matches Element::Rect { rect, style } && spans(rect, x, y, w, h) && (
        style.fill is Some <==> ctx.fill is Some) && (style.stroke is Some
            <==> ctx.stroke is Some),
        round.element matches Element::RoundedRect { rect, radius: r, style } && spans(
            rect,
            x,
            y,
            w,
            h,
        ) && r == radius,
{
}

/// Circles and ellipses stand about their center.
pub proof fn law_circles_stand_about_their_center(
    ctx: &Ctx,
    x: Scalar,
    y: Scalar,
    rx: Scalar,
    ry: Scalar,
    turn: Scalar,
    filled: SceneNode,
    lined: SceneNode,
    ellipse: SceneNode,
)
    requires
        call_ensures(Ctx::fill_circle, (ctx, x, y, rx), filled),
        call_ensures(Ctx::stroke_circle, (ctx, x, y, rx), lined),
        call_ensures(Ctx::fill_ellipse, (ctx, x, y, rx, ry, turn), ellipse),
    ensures
        filled.element matches Element::Circle { center, radius, style } && center.x == x
            && center.y == y && radius == rx && style.stroke is None,
        lined.element matches Element::Circle { center, radius, style } && center.x == x
            && center.y == y && radius == rx && style.fill is None && style.stroke is Some,
        ellipse.element matches Element::Ellipse { center, radii, rotation, style } && center.x == x
            && center.y == y && radii.x == rx && radii.y == ry && rotation == turn,
{
}

/// Arcs and sectors stand about their center and run from their start by their sweep.
pub proof fn law_arcs_stand_about_their_center(
    ctx: &Ctx,
    x: Scalar,
    y: Scalar,
    rx: Scalar,
    ry: Scalar,
    start: Scalar,
    sweep: Scalar,
    arc: SceneNode,
    pie: SceneNode,
)
    requires
        call_ensures(Ctx::arc, (ctx, x, y, rx, ry, start, sweep), arc),
        call_ensures(Ctx::pie, (ctx, x, y, rx, start, sweep), pie),
    ensures
        arc.element matches Element::Arc { center, radii, start_angle, sweep_angle, style }
            && center.x == x && center.y == y && radii.x == rx && radii.y == ry && start_angle
            == start && sweep_angle == sweep,
        pie.element matches Element::Pie { center, radius, start_angle, sweep_angle, style }
            && center.x == x && center.y == y && radius == rx && start_angle == start && sweep_angle
            == sweep,
{
}

/// Lines run from their first point to their last, through those that are given.
pub proof fn law_lines_run_through_their_points(
    ctx: &Ctx,
    x0: Scalar,
    y0: Scalar,
    x1: Scalar,
    y1: Scalar,
    pts: &[(Scalar, Scalar)],
    line: SceneNode,
    open: SceneNode,
    closed: SceneNode,
)
    requires
        call_ensures(Ctx::line, (ctx, x0, y0, x1, y1), line),
        call_ensures(Ctx::polyline, (ctx, pts), open),
        call_ensures(Ctx::polygon, (ctx, pts), closed),
    ensures
        line.element matches Element::Line { start, end, style } && start.x == x0 && start.y == y0
            && end.x == x1 && end.y == y1,
        open.element matches Element::Polyline { points, style } && points@.len() == pts@.len()
            && forall|i: int|
            0 <= i < pts@.len() ==> (#[trigger] points@[i]).x == pts@[i].0 && points@[i].y
                == pts@[i].1,
        closed.element matches Element::Polygon { points, style } && points@.len() == pts@.len()
            && forall|i: int|
            0 <= i < pts@.len() ==> (#[trigger] points@[i]).x == pts@[i].0 && points@[i].y
                == pts@[i].1,
{
}

} // verus!
