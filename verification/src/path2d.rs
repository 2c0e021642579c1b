//! Paths that grow call by call.

use vstd::prelude::*;
use crate::geometry::{Point, Transform, Vec2};
use crate::path;
use crate::path::{BezPath, PathEl};
use crate::scalar::Scalar;

verus! {

/// The bit pattern of a quarter turn.
pub const QUARTER_BITS: u64 = 0x3ff9_21fb_5444_2d18;

/// The bit pattern of a full turn.
pub const TURN_BITS: u64 = 0x4019_21fb_5444_2d18;

/// The bit pattern of `4.0`.
pub const FOUR_BITS: u64 = 0x4010_0000_0000_0000;

/// The bit pattern of `4.0 / 3.0`.
pub const FOUR_THIRDS_BITS: u64 = 0x3ff5_5555_5555_5555;

/// The most curves of one arc.
pub const MOST_CURVES: u64 = 0xf_ffff_ffff_ffff;

/// A path under construction.
#[derive(Debug)]
pub struct Path2D {
    pub path: BezPath,
    /// There is a point to continue from.
    pub started: bool,
    /// The path was closed.
    pub closed: bool,
}

/// The value of a [`Path2D`].
#[verifier::ext_equal]
pub struct PathState {
    pub els: Seq<PathEl>,
    pub started: bool,
    pub closed: bool,
}

impl View for Path2D {
    type V = PathState;

    open spec fn view(&self) -> PathState {
        PathState { els: self.path@, started: self.started, closed: self.closed }
    }
}

impl PathState {
    /// With a new part.
    pub open spec fn moved(self, p: Point) -> PathState {
        PathState { els: self.els.push(PathEl::MoveTo(p)), started: true, closed: false }
    }

    /// With a line; the first one only sets the start.
    pub open spec fn lined(self, p: Point) -> PathState {
        PathState {
            els: self.els.push(
                if self.started {
                    PathEl::LineTo(p)
                } else {
                    PathEl::MoveTo(p)
                },
            ),
            started: true,
            ..self
        }
    }

    /// Started at a point, where it is not started yet.
    pub open spec fn started_at(self, p: Point) -> PathState {
        if self.started {
            self
        } else {
            PathState { els: self.els.push(PathEl::MoveTo(p)), started: true, ..self }
        }
    }

    /// With one more element.
    pub open spec fn with(self, el: PathEl) -> PathState {
        PathState { els: self.els.push(el), ..self }
    }

    /// The point that a line continues from; the origin without one.
    pub open spec fn cursor(self) -> Point {
        match path::last_point(self.els) {
            Some(p) => p,
            None => Point { x: Scalar { bits: 0 }, y: Scalar { bits: 0 } },
        }
    }
}

impl Default for Path2D {
    fn default() -> (r: Path2D)
        ensures
            r@ == (PathState { els: Seq::empty(), started: false, closed: false }),
    {
        Path2D::new()
    }
}

impl Clone for Path2D {
    fn clone(&self) -> (r: Path2D)
        ensures
            r@ == self@,
    {
        Path2D { path: self.path.clone(), started: self.started, closed: self.closed }
    }
}

impl Path2D {
    pub fn new() -> (r: Path2D)
        ensures
            r@ == (PathState { els: Seq::empty(), started: false, closed: false }),
    {
        Path2D { path: BezPath::new(), started: false, closed: false }
    }

    /// From an existing path; closed where its last element closes it.
    pub fn from_bezpath(path: BezPath) -> (r: Path2D)
        ensures
            r@ == (PathState {
                els: path@,
                started: path@.len() > 0,
                closed: path@.len() > 0 && path@.last() == PathEl::ClosePath,
            }),
    {
        let els = path.elements();
        let n: usize = els.len();
        let closed = if n > 0 {
            match els[n - 1] {
                PathEl::ClosePath => true,
                _ => false,
            }
        } else {
            false
        };
        Path2D { started: n > 0, path, closed }
    }

    /// The path so far.
    pub fn as_bezpath(&self) -> (r: &BezPath)
        ensures
            r@ == self@.els,
    {
        &self.path
    }

    /// The path.
    pub fn into_bezpath(self) -> (r: BezPath)
        ensures
            r@ == self@.els,
    {
        self.path
    }

    /// Whether the path was closed.
    pub fn is_closed(&self) -> (r: bool)
        ensures
            r == self@.closed,
    {
        self.closed
    }

    fn cursor(&self) -> (p: Point)
        ensures
            p == self@.cursor(),
    {
        match self.path.current_point() {
            Some(p) => p,
            None => Point { x: Scalar { bits: 0 }, y: Scalar { bits: 0 } },
        }
    }

    /// Starts a new part.
    pub fn move_to(&mut self, x: Scalar, y: Scalar) -> (r: &mut Path2D)
        ensures
            r@ == old(self)@.moved(Point { x, y }),
            *final(self) == *final(r),
    {
        self.path.push(PathEl::MoveTo(Point { x, y }));
        self.started = true;
        self.closed = false;
        self
    }

    /// A line; on an empty path it starts a part.
    pub fn line_to(&mut self, x: Scalar, y: Scalar) -> (r: &mut Path2D)
        ensures
            r@ == old(self)@.lined(Point { x, y }),
            *final(self) == *final(r),
    {
        if self.started {
            self.path.push(PathEl::LineTo(Point { x, y }));
        } else {
            self.path.push(PathEl::MoveTo(Point { x, y }));
            self.started = true;
        }
        self
    }

    /// A horizontal line to `x`.
    pub fn hline_to(&mut self, x: Scalar) -> (r: &mut Path2D)
        ensures
            r@ == old(self)@.lined(Point { x, y: old(self)@.cursor().y }),
            *final(self) == *final(r),
    {
        let y = self.cursor().y;
        self.line_to(x, y)
    }

    /// A vertical line to `y`.
    pub fn vline_to(&mut self, y: Scalar) -> (r: &mut Path2D)
        ensures
            r@ == old(self)@.lined(Point { x: old(self)@.cursor().x, y }),
            *final(self) == *final(r),
    {
        let x = self.cursor().x;
        self.line_to(x, y)
    }

    fn ensure_started(&mut self, p: Point)
        ensures
            final(self)@ == old(self)@.started_at(p),
    {
        if !self.started {
            self.path.push(PathEl::MoveTo(p));
            self.started = true;
        }
    }

    /// A quadratic curve; on an empty path it starts at its control point.
    pub fn quad_to(&mut self, cx: Scalar, cy: Scalar, x: Scalar, y: Scalar) -> (r: &mut Path2D)
        ensures
            r@ == old(self)@.started_at(Point { x: cx, y: cy }).with(
                PathEl::QuadTo(Point { x: cx, y: cy }, Point { x, y }),
            ),
            *final(self) == *final(r),
    {
        let c = Point { x: cx, y: cy };
        self.ensure_started(c);
        self.path.push(PathEl::QuadTo(c, Point { x, y }));
        self
    }

    /// A cubic curve; on an empty path it starts at its first control point.
    pub fn curve_to(
        &mut self,
        c1x: Scalar,
        c1y: Scalar,
        c2x: Scalar,
        c2y: Scalar,
        x: Scalar,
        y: Scalar,
    ) -> (r: &mut Path2D)
        ensures
            r@ == old(self)@.started_at(Point { x: c1x, y: c1y }).with(
                PathEl::CurveTo(Point { x: c1x, y: c1y }, Point { x: c2x, y: c2y }, Point { x, y }),
            ),
            *final(self) == *final(r),
    {
        let c1 = Point { x: c1x, y: c1y };
        self.ensure_started(c1);
        self.path.push(PathEl::CurveTo(c1, Point { x: c2x, y: c2y }, Point { x, y }));
        self
    }

    /// The same as [`Path2D::curve_to`].
    pub fn bezier_curve_to(
        &mut self,
        c1x: Scalar,
        c1y: Scalar,
        c2x: Scalar,
        c2y: Scalar,
        x: Scalar,
        y: Scalar,
    ) -> (r: &mut Path2D)
        ensures
            r@ == old(self)@.started_at(Point { x: c1x, y: c1y }).with(
                PathEl::CurveTo(Point { x: c1x, y: c1y }, Point { x: c2x, y: c2y }, Point { x, y }),
            ),
            *final(self) == *final(r),
    {
        self.curve_to(c1x, c1y, c2x, c2y, x, y)
    }

    /// A rectangle as a closed part.
    pub fn rect(&mut self, x: Scalar, y: Scalar, w: Scalar, h: Scalar) -> (r: &mut Path2D)
        ensures
            r@ == (PathState {
                els: old(self)@.els + box_els(x, y, w, h),
                started: true,
                ..old(self)@
            }),
            *final(self) == *final(r),
    {
        let ghost start = self.path@;
        let right = x.add(w);
        let bottom = y.add(h);
        self.path.push(PathEl::MoveTo(Point { x, y }));
        self.path.push(PathEl::LineTo(Point { x: right, y }));
        self.path.push(PathEl::LineTo(Point { x: right, y: bottom }));
        self.path.push(PathEl::LineTo(Point { x, y: bottom }));
        self.path.push(PathEl::ClosePath);
        self.started = true;
        assert(self.path@ =~= start + box_els(x, y, w, h));
        self
    }

    /// The outline of a shape as a part of its own.
    pub fn add_outline(&mut self, outline: &BezPath) -> (r: &mut Path2D)
        ensures
            r@ == (PathState { els: old(self)@.els + outline@, started: true, ..old(self)@ }),
            *final(self) == *final(r),
    {
        self.path.extend(outline);
        self.started = true;
        self
    }

    /// The elements of another path, moved by a transform where there is one.
    pub fn add_path(&mut self, other: &Path2D, transform: Option<Transform>) -> (r: &mut Path2D)
        ensures
            r@ == (PathState {
                els: old(self)@.els + (match transform {
                    Some(t) => path::moved_els(t, other@.els),
                    None => other@.els,
                }),
                started: old(self)@.started || other@.started,
                ..old(self)@
            }),
            *final(self) == *final(r),
    {
        match transform {
            Some(t) => {
                let moved = other.path.transformed(&t);
                self.path.extend(&moved);
            },
            None => {
                self.path.extend(&other.path);
            },
        }
        self.started = self.started || other.started;
        self
    }

    /// Closes the current part.
    pub fn close_path(&mut self) -> (r: &mut Path2D)
        ensures
            r@ == (PathState {
                els: old(self)@.els.push(PathEl::ClosePath),
                closed: true,
                ..old(self)@
            }),
            *final(self) == *final(r),
    {
        self.path.push(PathEl::ClosePath);
        self.closed = true;
        self
    }

    /// An arc of an ellipse as curves, after a line to its start; nothing without a direction.
    ///
    /// `turn` is the cosine and the sine of the rotation, `tan` the tangent of [`ArcPlan::quarter`]
    /// and `directions` the cosines and sines of [`ArcPlan::angles`].
    pub fn ellipse(
        &mut self,
        center: Point,
        radii: Vec2,
        turn: Vec2,
        tan: Scalar,
        directions: &Vec<Vec2>,
    ) -> (r: &mut Path2D)
        ensures
            r@ == arc_state(old(self)@, center, radii, turn, tan, directions@),
            *final(self) == *final(r),
    {
        if directions.len() == 0 {
            return self;
        }
        let rx = radii.x.abs();
        let ry = radii.y.abs();
        let alpha = (Scalar { bits: FOUR_THIRDS_BITS }).mul(tan);
        let first = arc_point(center, rx, ry, turn, directions[0]);
        if self.started {
            self.path.push(PathEl::LineTo(first));
        } else {
            self.path.push(PathEl::MoveTo(first));
            self.started = true;
        }
        let ghost head = self.path@;
        let ghost curves = arc_curves(center, radii, turn, tan, directions@);
        let ghost closed = self.closed;
        let mut i: usize = 1;
        assert(head =~= head + curves.take(0));
        while i < directions.len()
            invariant
                1 <= i <= directions@.len(),
                rx == radii.x.absolute(),
                ry == radii.y.absolute(),
                alpha == (Scalar { bits: FOUR_THIRDS_BITS }).product(tan),
                curves == arc_curves(center, radii, turn, tan, directions@),
                self.started,
                self.closed == closed,
                self.path@ == head + curves.take(i - 1),
            decreases directions.len() - i,
        {
            let a = directions[i - 1];
            let b = directions[i];
            let p0 = arc_point(center, rx, ry, turn, a);
            let p3 = arc_point(center, rx, ry, turn, b);
            let d0 = arc_tangent(rx, ry, turn, a);
            let d3 = arc_tangent(rx, ry, turn, b);
            let c1 = Point { x: p0.x.add(alpha.mul(d0.x)), y: p0.y.add(alpha.mul(d0.y)) };
            let c2 = Point { x: p3.x.sub(alpha.mul(d3.x)), y: p3.y.sub(alpha.mul(d3.y)) };
            self.path.push(PathEl::CurveTo(c1, c2, p3));
            assert(self.path@ =~= head + curves.take(i as int));
            i += 1;
        }
        assert(self.path@ =~= head + curves);
        self
    }
}

/// The closed outline of a rectangle with a given corner and extent.
pub open spec fn box_els(x: Scalar, y: Scalar, w: Scalar, h: Scalar) -> Seq<PathEl> {
    seq![
        PathEl::MoveTo(Point { x, y }),
        PathEl::LineTo(Point { x: x.sum(w), y }),
        PathEl::LineTo(Point { x: x.sum(w), y: y.sum(h) }),
        PathEl::LineTo(Point { x, y: y.sum(h) }),
        PathEl::ClosePath,
    ]
}

/// The point of a turned ellipse in a direction.
pub open spec fn arc_at(center: Point, rx: Scalar, ry: Scalar, turn: Vec2, d: Vec2) -> Point {
    Point {
        x: center.x.sum(rx.product(d.x).product(turn.x)).difference(
            ry.product(d.y).product(turn.y),
        ),
        y: center.y.sum(rx.product(d.x).product(turn.y)).sum(ry.product(d.y).product(turn.x)),
    }
}

/// The tangent of a turned ellipse in a direction.
pub open spec fn arc_along(rx: Scalar, ry: Scalar, turn: Vec2, d: Vec2) -> Point {
    Point {
        x: rx.negated().product(d.y).product(turn.x).difference(ry.product(d.x).product(turn.y)),
        y: rx.negated().product(d.y).product(turn.y).sum(ry.product(d.x).product(turn.x)),
    }
}

fn arc_point(center: Point, rx: Scalar, ry: Scalar, turn: Vec2, d: Vec2) -> (p: Point)
    ensures
        p == arc_at(center, rx, ry, turn, d),
{
    Point {
        x: center.x.add(rx.mul(d.x).mul(turn.x)).sub(ry.mul(d.y).mul(turn.y)),
        y: center.y.add(rx.mul(d.x).mul(turn.y)).add(ry.mul(d.y).mul(turn.x)),
    }
}

fn arc_tangent(rx: Scalar, ry: Scalar, turn: Vec2, d: Vec2) -> (p: Point)
    ensures
        p == arc_along(rx, ry, turn, d),
{
    Point {
        x: rx.neg().mul(d.y).mul(turn.x).sub(ry.mul(d.x).mul(turn.y)),
        y: rx.neg().mul(d.y).mul(turn.y).add(ry.mul(d.x).mul(turn.x)),
    }
}

/// The curve between two directions.
pub open spec fn arc_curve(
    center: Point,
    radii: Vec2,
    turn: Vec2,
    tan: Scalar,
    a: Vec2,
    b: Vec2,
) -> PathEl {
    let rx = radii.x.absolute();
    let ry = radii.y.absolute();
    let alpha = Scalar { bits: FOUR_THIRDS_BITS }.product(tan);
    let p0 = arc_at(center, rx, ry, turn, a);
    let p3 = arc_at(center, rx, ry, turn, b);
    let d0 = arc_along(rx, ry, turn, a);
    let d3 = arc_along(rx, ry, turn, b);
    PathEl::CurveTo(
        Point { x: p0.x.sum(alpha.product(d0.x)), y: p0.y.sum(alpha.product(d0.y)) },
        Point {
            x: p3.x.difference(alpha.product(d3.x)),
            y: p3.y.difference(alpha.product(d3.y)),
        },
        p3,
    )
}

/// The curves between directions that follow each other.
pub open spec fn arc_curves(
    center: Point,
    radii: Vec2,
    turn: Vec2,
    tan: Scalar,
    directions: Seq<Vec2>,
) -> Seq<PathEl> {
    Seq::new(
        (directions.len() - 1) as nat,
        |i: int| arc_curve(center, radii, turn, tan, directions[i], directions[i + 1]),
    )
}

/// A path with an arc of an ellipse.
pub open spec fn arc_state(
    s: PathState,
    center: Point,
    radii: Vec2,
    turn: Vec2,
    tan: Scalar,
    directions: Seq<Vec2>,
) -> PathState {
    if directions.len() == 0 {
        s
    } else {
        let first = arc_at(
            center,
            radii.x.absolute(),
            radii.y.absolute(),
            turn,
            directions[0],
        );
        let l = s.lined(first);
        PathState { els: l.els + arc_curves(center, radii, turn, tan, directions), ..l }
    }
}

/// What an arc of an ellipse needs that is computed outside.
#[derive(Debug)]
pub struct ArcPlan {
    /// The angles at which its curves start and end.
    pub angles: Vec<Scalar>,
    /// A quarter of the angle of one curve.
    pub quarter: Scalar,
}

/// The number of curves: one for each quarter turn or part of it.
pub open spec fn curve_count(sweep: Scalar) -> nat {
    let n = sweep.absolute().quotient(Scalar { bits: QUARTER_BITS }).ceiled().truncated(
        MOST_CURVES as nat,
    );
    if n == 0 {
        1
    } else {
        n
    }
}

/// The angle of one curve.
pub open spec fn curve_step(sweep: Scalar) -> Scalar {
    sweep.quotient(Scalar::integer(curve_count(sweep)))
}

/// The angle after `n` steps, added one by one.
pub open spec fn stepped(start: Scalar, step: Scalar, n: nat) -> Scalar
    decreases n,
{
    if n == 0 {
        start
    } else {
        stepped(start, step, (n - 1) as nat).sum(step)
    }
}

/// The arc has an extent.
pub open spec fn drawable_arc(radii: Vec2, sweep: Scalar) -> bool {
    sweep.finite() && !sweep.same(Scalar { bits: 0 }) && radii.x.finite() && radii.y.finite()
}

/// The angles of an arc; none where it has no extent or is not finite.
pub open spec fn arc_angles(radii: Vec2, start: Scalar, end: Scalar) -> Seq<Scalar> {
    let sweep = end.difference(start);
    if drawable_arc(radii, sweep) {
        Seq::new(curve_count(sweep) + 1, |i: int| stepped(start, curve_step(sweep), i as nat))
    } else {
        Seq::empty()
    }
}

/// What [`Path2D::ellipse`] needs for an arc from one angle to another.
pub fn plan_arc(radii: Vec2, start: Scalar, end: Scalar) -> (plan: ArcPlan)
    ensures
        plan.angles@ == arc_angles(radii, start, end),
        plan.quarter == curve_step(end.difference(start)).quotient(Scalar { bits: FOUR_BITS }),
{
    let sweep = end.sub(start);
    proof {
        reveal(Scalar::truncated);
    }
    let n: u64 = sweep.abs().div(Scalar { bits: QUARTER_BITS }).ceil().to_u64(MOST_CURVES);
    let n: u64 = if n == 0 {
        1
    } else {
        n
    };
    let step = sweep.div(Scalar::from_u64(n));
    let quarter = step.div(Scalar { bits: FOUR_BITS });
    let mut angles: Vec<Scalar> = Vec::new();
    if !sweep.is_finite() || sweep.same_value(Scalar { bits: 0 }) || !radii.x.is_finite()
        || !radii.y.is_finite() {
        assert(angles@ =~= arc_angles(radii, start, end));
        return ArcPlan { angles, quarter };
    }
    let ghost all = arc_angles(radii, start, end);
    let mut t = start;
    angles.push(t);
    let mut i: u64 = 0;
    assert(angles@ =~= all.take(1));
    while i < n
        invariant
            i <= n,
            n == curve_count(sweep),
            n <= MOST_CURVES,
            sweep == end.difference(start),
            drawable_arc(radii, sweep),
            step == curve_step(sweep),
            all == arc_angles(radii, start, end),
            t == stepped(start, step, i as nat),
            angles@ == all.take(i + 1),
        decreases n - i,
    {
        t = t.add(step);
        angles.push(t);
        i += 1;
        assert(angles@ =~= all.take(i + 1));
    }
    assert(angles@ =~= all);
    ArcPlan { angles, quarter }
}

/// The end angle of an arc that runs counterclockwise.
pub fn ccw_end(end: Scalar) -> (r: Scalar)
    ensures
        r == end.difference(Scalar { bits: TURN_BITS }),
{
    end.sub(Scalar { bits: TURN_BITS })
}

} // verus!
