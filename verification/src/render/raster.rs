//! What the raster backend is handed: transforms, colors, paths and bitmaps.

use vstd::prelude::*;
use crate::geometry::{Color, Point, Rect, Transform, Vec2, BYTE_BITS, TWO_BITS};
use crate::path::{BezPath, PathEl};
use crate::scalar::{Scalar, ONE_BITS};
use crate::text::layout::TextMetrics;
use crate::text::style::{TextAlign, TextStyle};

verus! {

/// The bit pattern of `1e-12`.
pub const SINGULAR_BITS: u64 = 0x3d71_9799_812d_ea11;

/// The largest side of a bitmap.
pub const MAX_SIDE: u64 = 65535;

pub open spec fn zero() -> Scalar {
    Scalar { bits: 0 }
}

pub open spec fn one() -> Scalar {
    Scalar { bits: ONE_BITS }
}

pub open spec fn identity() -> Transform {
    Transform { a: one(), b: zero(), c: zero(), d: one(), e: zero(), f: zero() }
}

/// The open transforms and opacities, each combined with those around it.
#[derive(Debug)]
pub struct RasterState {
    pub transforms: Vec<Transform>,
    pub opacities: Vec<Scalar>,
}

impl RasterState {
    /// The transform in effect.
    pub open spec fn transform(self) -> Transform {
        if self.transforms@.len() == 0 {
            identity()
        } else {
            self.transforms@.last()
        }
    }

    /// The opacity in effect.
    pub open spec fn opacity(self) -> Scalar {
        if self.opacities@.len() == 0 {
            one()
        } else {
            self.opacities@.last()
        }
    }

    /// A state with one transform that scales a scene of a given width to a number of pixels.
    pub fn new(pixels: u32, width: Scalar) -> (r: RasterState)
        ensures
            r.transforms@ == seq![base_transform(pixels, width)],
            r.opacities@ == Seq::<Scalar>::empty(),
    {
        let s = if (Scalar { bits: 0 }).lt(width) {
            Scalar::from_u64(pixels as u64).div(width)
        } else {
            Scalar { bits: ONE_BITS }
        };
        let mut transforms: Vec<Transform> = Vec::new();
        transforms.push(Transform::scale(s));
        let r = RasterState { transforms, opacities: Vec::new() };
        assert(r.transforms@ =~= seq![base_transform(pixels, width)]);
        assert(r.opacities@ =~= Seq::<Scalar>::empty());
        r
    }

    /// The transform in effect.
    pub fn current_transform(&self) -> (t: Transform)
        ensures
            t == self.transform(),
    {
        let n: usize = self.transforms.len();
        if n == 0 {
            Transform::identity()
        } else {
            self.transforms[n - 1]
        }
    }

    /// The opacity in effect.
    pub fn current_opacity(&self) -> (o: Scalar)
        ensures
            o == self.opacity(),
    {
        let n: usize = self.opacities.len();
        if n == 0 {
            Scalar { bits: ONE_BITS }
        } else {
            self.opacities[n - 1]
        }
    }

    /// Enters a transform, applied before those around it; gives the one in effect.
    pub fn push_transform(&mut self, t: Transform) -> (r: Transform)
        ensures
            r == (if old(self).transforms@.len() == 0 {
                t
            } else {
                old(self).transforms@.last().after(t)
            }),
            final(self).transforms@ == old(self).transforms@.push(r),
            final(self).opacities@ == old(self).opacities@,
    {
        let n: usize = self.transforms.len();
        let r = if n == 0 {
            t
        } else {
            Transform::compose(&self.transforms[n - 1], &t)
        };
        self.transforms.push(r);
        r
    }

    /// Leaves the innermost transform; gives the one in effect.
    pub fn pop_transform(&mut self) -> (r: Transform)
        ensures
            final(self).transforms@ == (if old(self).transforms@.len() == 0 {
                old(self).transforms@
            } else {
                old(self).transforms@.drop_last()
            }),
            final(self).opacities@ == old(self).opacities@,
            r == final(self).transform(),
    {
        let _ = self.transforms.pop();
        self.current_transform()
    }

    /// Enters an opacity, held between 0 and 1.
    pub fn push_opacity(&mut self, opacity: Scalar)
        ensures
            final(self).opacities@ == old(self).opacities@.push(
                old(self).opacity().product(opacity.clamped(zero(), one())),
            ),
            final(self).transforms@ == old(self).transforms@,
    {
        let o = self.current_opacity().mul(
            opacity.clamp(Scalar { bits: 0 }, Scalar { bits: ONE_BITS }),
        );
        self.opacities.push(o);
    }

    /// Leaves the innermost opacity.
    pub fn pop_opacity(&mut self)
        ensures
            final(self).opacities@ == (if old(self).opacities@.len() == 0 {
                old(self).opacities@
            } else {
                old(self).opacities@.drop_last()
            }),
            final(self).transforms@ == old(self).transforms@,
    {
        let _ = self.opacities.pop();
    }
}

/// The transform from scene to pixels; none where the scene has no width.
pub open spec fn base_transform(pixels: u32, width: Scalar) -> Transform {
    let s = if zero().less(width) {
        Scalar::integer(pixels as nat).quotient(width)
    } else {
        one()
    };
    Transform { a: s, b: zero(), c: zero(), d: s, e: zero(), f: zero() }
}

/// The color with an opacity: only the alpha channel changes.
pub open spec fn faded(c: Color, opacity: Scalar) -> Color {
    let a = Scalar::integer(c.a as nat).quotient(Scalar { bits: BYTE_BITS }).product(
        opacity,
    ).clamped(zero(), one());
    Color { a: a.product(Scalar { bits: BYTE_BITS }).truncated(255) as u8, ..c }
}

/// The color with an opacity.
pub fn paint_color(c: Color, opacity: Scalar) -> (r: Color)
    ensures
        r == faded(c, opacity),
{
    let byte = Scalar { bits: BYTE_BITS };
    let a = Scalar::from_u64(c.a as u64).div(byte).mul(opacity).clamp(
        Scalar { bits: 0 },
        Scalar { bits: ONE_BITS },
    );
    proof {
        reveal(Scalar::truncated);
    }
    Color { a: a.mul(byte).to_u64(255) as u8, ..c }
}

/// The determinant.
pub open spec fn determinant(t: Transform) -> Scalar {
    t.a.product(t.d).difference(t.b.product(t.c))
}

/// The inverse.
pub open spec fn inverse(t: Transform) -> Transform {
    let k = one().quotient(determinant(t));
    Transform {
        a: k.product(t.d),
        b: k.negated().product(t.b),
        c: k.negated().product(t.c),
        d: k.product(t.a),
        e: k.product(t.c.product(t.f).difference(t.d.product(t.e))),
        f: k.product(t.b.product(t.e).difference(t.a.product(t.f))),
    }
}

/// The transform that keeps a gradient in scene coordinates: the inverse of the one in effect,
/// and the identity where that has none.
pub open spec fn unmoved(t: Transform) -> Transform {
    if (Scalar { bits: SINGULAR_BITS }).less(determinant(t).absolute()) {
        inverse(t)
    } else {
        identity()
    }
}

/// The transform that keeps a gradient in scene coordinates.
pub fn paint_transform(t: &Transform) -> (r: Transform)
    ensures
        r == unmoved(*t),
{
    let det = t.a.mul(t.d).sub(t.b.mul(t.c));
    if (Scalar { bits: SINGULAR_BITS }).lt(det.abs()) {
        let k = (Scalar { bits: ONE_BITS }).div(det);
        Transform {
            a: k.mul(t.d),
            b: k.neg().mul(t.b),
            c: k.neg().mul(t.c),
            d: k.mul(t.a),
            e: k.mul(t.c.mul(t.f).sub(t.d.mul(t.e))),
            f: k.mul(t.b.mul(t.e).sub(t.a.mul(t.f))),
        }
    } else {
        Transform::identity()
    }
}

/// The closed outline of a rectangle.
pub open spec fn rect_els(r: Rect) -> Seq<PathEl> {
    let o = r.ordered();
    seq![
        PathEl::MoveTo(Point { x: o.x0, y: o.y0 }),
        PathEl::LineTo(Point { x: o.x1, y: o.y0 }),
        PathEl::LineTo(Point { x: o.x1, y: o.y1 }),
        PathEl::LineTo(Point { x: o.x0, y: o.y1 }),
        PathEl::ClosePath,
    ]
}

/// The closed outline of a rectangle.
pub fn rect_path(r: Rect) -> (p: BezPath)
    ensures
        p@ == rect_els(r),
{
    let mut p = BezPath::new();
    p.push(PathEl::MoveTo(Point { x: r.min_x(), y: r.min_y() }));
    p.push(PathEl::LineTo(Point { x: r.max_x(), y: r.min_y() }));
    p.push(PathEl::LineTo(Point { x: r.max_x(), y: r.max_y() }));
    p.push(PathEl::LineTo(Point { x: r.min_x(), y: r.max_y() }));
    p.push(PathEl::ClosePath);
    assert(p@ =~= rect_els(r));
    p
}

/// The path through points; empty without a point.
pub open spec fn line_els(points: Seq<Point>) -> Seq<PathEl> {
    Seq::new(
        points.len(),
        |i: int|
            if i == 0 {
                PathEl::MoveTo(points[i])
            } else {
                PathEl::LineTo(points[i])
            },
    )
}

/// The path through points; empty without a point.
pub fn line_path(points: &Vec<Point>) -> (p: BezPath)
    ensures
        p@ == line_els(points@),
{
    let mut p = BezPath::new();
    let mut i: usize = 0;
    assert(p@ =~= line_els(points@).take(0));
    while i < points.len()
        invariant
            i <= points@.len(),
            p@ == line_els(points@).take(i as int),
        decreases points.len() - i,
    {
        if i == 0 {
            p.push(PathEl::MoveTo(points[i]));
        } else {
            p.push(PathEl::LineTo(points[i]));
        }
        i += 1;
        assert(p@ =~= line_els(points@).take(i as int));
    }
    assert(p@ =~= line_els(points@));
    p
}

/// The closed path through points; empty without a point.
pub fn polygon_path(points: &Vec<Point>) -> (p: BezPath)
    ensures
        p@ == (if points@.len() == 0 {
            Seq::empty()
        } else {
            line_els(points@).push(PathEl::ClosePath)
        }),
{
    let mut p = line_path(points);
    if points.len() > 0 {
        p.push(PathEl::ClosePath);
    } else {
        assert(p@ =~= Seq::<PathEl>::empty());
    }
    p
}

/// The sector of an arc: from the center to its start, along it and back.
pub open spec fn sector_els(center: Point, arc: Seq<PathEl>) -> Seq<PathEl> {
    let head = seq![PathEl::MoveTo(center)];
    let body = match arc.len() > 0 {
        true => match arc[0] {
            PathEl::MoveTo(p) => seq![PathEl::LineTo(p)] + arc.skip(1),
            _ => arc,
        },
        false => arc,
    };
    (head + body).push(PathEl::ClosePath)
}

/// The sector of an arc: from the center to its start, along it and back.
pub fn pie_path(center: Point, arc: &BezPath) -> (p: BezPath)
    ensures
        p@ == sector_els(center, arc@),
{
    let mut p = BezPath::new();
    p.push(PathEl::MoveTo(center));
    let els = arc.elements();
    let mut i: usize = 0;
    let ghost mut body: Seq<PathEl> = arc@;
    if els.len() > 0 {
        match els[0] {
            PathEl::MoveTo(q) => {
                p.push(PathEl::LineTo(q));
                i = 1;
                proof {
                    body = seq![PathEl::LineTo(q)] + arc@.skip(1);
                }
            },
            _ => {},
        }
    }
    assert(p@ =~= seq![PathEl::MoveTo(center)] + body.take(i as int));
    while i < els.len()
        invariant
            i <= els@.len(),
            els@ == arc@,
            body.len() == arc@.len(),
            forall|j: int| i <= j < arc@.len() ==> body[j] == arc@[j],
            p@ == seq![PathEl::MoveTo(center)] + body.take(i as int),
        decreases els.len() - i,
    {
        p.push(els[i]);
        i += 1;
        assert(p@ =~= seq![PathEl::MoveTo(center)] + body.take(i as int));
    }
    assert(body.take(i as int) =~= body);
    p.push(PathEl::ClosePath);
    p
}

/// A translation.
pub open spec fn shift(x: Scalar, y: Scalar) -> Transform {
    Transform { a: one(), b: zero(), c: zero(), d: one(), e: x, f: y }
}

/// A rotation with a given cosine and sine.
pub open spec fn turning(turn: Vec2) -> Transform {
    Transform { a: turn.x, b: turn.y, c: turn.y.negated(), d: turn.x, e: zero(), f: zero() }
}

/// The distance from the anchor to the left edge of a text.
pub open spec fn text_dx(width: Scalar, align: TextAlign) -> Scalar {
    match align {
        TextAlign::Center => width.negated().quotient(Scalar { bits: TWO_BITS }),
        TextAlign::Right => width.negated(),
        _ => zero(),
    }
}

/// From the layout of a text to the scene: move its anchor to the origin, turn it, and move it
/// to its position.
pub open spec fn text_placement(
    position: Point,
    style: TextStyle,
    m: TextMetrics,
    turn: Vec2,
) -> Transform {
    shift(position.x, position.y).after(turning(turn)).after(
        shift(
            text_dx(m.width, style.align),
            style.baseline.anchor(m).negated().difference(style.baseline_shift),
        ),
    )
}

/// From the layout of a text to the scene; `turn` is the cosine and the sine of its rotation.
pub fn text_transform(
    position: Point,
    style: &TextStyle,
    m: &TextMetrics,
    turn: Vec2,
) -> (t: Transform)
    ensures
        t == text_placement(position, *style, *m, turn),
{
    let dx = match style.align {
        TextAlign::Center => m.width.neg().div(Scalar { bits: TWO_BITS }),
        TextAlign::Right => m.width.neg(),
        _ => Scalar { bits: 0 },
    };
    let dy = style.baseline.anchor_offset(m).neg().sub(style.baseline_shift);
    let outer = Transform::compose(
        &Transform::translate(position.x, position.y),
        &Transform::rotate(turn.y, turn.x),
    );
    Transform::compose(&outer, &Transform::translate(dx, dy))
}

/// The origin of the glyphs of a run in its layout, given the corner of its line.
///
/// A text that is shifted as a whole carries its runs along, so that their own shift does not
/// count again.
pub open spec fn run_place(corner: Point, run_shift: Scalar, text_shift: Scalar) -> Point {
    if text_shift.same(zero()) {
        corner
    } else {
        Point { x: corner.x, y: corner.y.sum(run_shift) }
    }
}

/// The origin of the glyphs of a run in its layout, given the corner of its line.
pub fn run_origin(corner: Point, run_shift: Scalar, text_shift: Scalar) -> (p: Point)
    ensures
        p == run_place(corner, run_shift, text_shift),
{
    if text_shift.same_value(Scalar { bits: 0 }) {
        corner
    } else {
        Point { x: corner.x, y: corner.y.add(run_shift) }
    }
}

/// The rectangle behind a text: that of the images of two opposite corners of its layout.
pub fn text_background(t: &Transform, m: &TextMetrics) -> (r: Rect)
    ensures
        ({
            let p = t.image(Point { x: zero(), y: zero() });
            let q = t.image(Point { x: m.width, y: m.height });
            r == (Rect { x0: p.x, y0: p.y, x1: q.x, y1: q.y }).ordered()
        }),
{
    let zero = Scalar { bits: 0 };
    let p = t.apply_point(Point { x: zero, y: zero });
    let q = t.apply_point(Point { x: m.width, y: m.height });
    Rect::from_points(p, q)
}

} // verus!
