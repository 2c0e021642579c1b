//! Bounding boxes of content, and a canvas that fits it.

use vstd::prelude::*;
use crate::arith;
use crate::arith::INFINITY_BITS;
use crate::digits;
use crate::geometry::{Point, PointExt, Rect, Size, Transform, Vec2, HALF_BITS, TWO_BITS};
use crate::laws;
use crate::scalar;
use crate::scalar::{Scalar, ONE_BITS};
use crate::scene::{Element, Layer, ObjectFit, Scene, SceneNode};
use crate::style::Stroke;
use crate::text::style::{TextAlign, TextBaseline, TextStyle};

verus! {

/// The bit pattern of a full turn.
pub const TURN_BITS: u64 = 0x4019_21fb_5444_2d18;

/// The bit pattern of half a turn.
pub const HALF_TURN_BITS: u64 = 0x4009_21fb_5444_2d18;

/// The bit pattern of a quarter turn.
pub const QUARTER_BITS: u64 = 0x3ff9_21fb_5444_2d18;

/// The bit pattern of a quarter turn back.
pub const QUARTER_BACK_BITS: u64 = 0xbff9_21fb_5444_2d18;

/// The bit pattern of `0.8`.
pub const ASCENT_BITS: u64 = 0x3fe9_9999_9999_999a;

/// The bit pattern of `0.2`.
pub const DESCENT_BITS: u64 = 0x3fc9_9999_9999_999a;

/// The bit pattern of the smallest normal number.
pub const LEAST_SCALE_BITS: u64 = 0x0010_0000_0000_0000;

/// The bit pattern of the largest finite number.
pub const LARGEST_BITS: u64 = 0x7fef_ffff_ffff_ffff;

/// The bit pattern of `1e-3`.
pub const NEAR_BITS: u64 = 0x3f50_624d_d2f1_a9fc;

/// What the box of an element needs that is computed outside.
#[derive(Debug)]
pub struct Measure {
    /// The box of an ellipse or of a path.
    pub bounds: Option<Rect>,
    /// The cosines and sines of the angles of an arc; see [`arc_extrema`].
    pub directions: Vec<Vec2>,
    /// The size of a text without a layout.
    pub size: Option<Size>,
    /// The cosine and the sine of the rotation of a text.
    pub turn: Vec2,
    /// The measures of the children of a group.
    pub children: Vec<Measure>,
}

/// What the box of a scene needs that is computed outside.
#[derive(Debug)]
pub struct SceneMeasure {
    pub nodes: Vec<Measure>,
    /// Of each layer the measures of its nodes.
    pub layers: Vec<Vec<Measure>>,
}

/// What is measured of one element.
pub struct Facts {
    pub bounds: Option<Rect>,
    pub directions: Seq<Vec2>,
    pub size: Option<Size>,
    pub turn: Vec2,
}

/// Nothing is measured.
pub open spec fn no_facts() -> Facts {
    Facts {
        bounds: None,
        directions: Seq::empty(),
        size: None,
        turn: Vec2 { x: Scalar { bits: ONE_BITS }, y: Scalar { bits: 0 } },
    }
}

impl Measure {
    /// What is measured of the element itself.
    pub open spec fn facts(self) -> Facts {
        Facts {
            bounds: self.bounds,
            directions: self.directions@,
            size: self.size,
            turn: self.turn,
        }
    }

    /// Nothing is measured.
    pub fn none() -> (m: Measure)
        ensures
            m.facts() == no_facts(),
            m.children@ == Seq::<Measure>::empty(),
    {
        let m = Measure {
            bounds: None,
            directions: Vec::new(),
            size: None,
            turn: Vec2 { x: Scalar { bits: ONE_BITS }, y: Scalar { bits: 0 } },
            children: Vec::new(),
        };
        assert(m.directions@ =~= Seq::<Vec2>::empty());
        assert(m.children@ =~= Seq::<Measure>::empty());
        m
    }
}

/// What is measured of the node at an index; nothing where the measures end before it.
pub open spec fn facts_at(ms: Seq<Measure>, i: int) -> Facts {
    if 0 <= i < ms.len() {
        ms[i].facts()
    } else {
        no_facts()
    }
}

/// The measures below the node at an index.
pub open spec fn below(ms: Seq<Measure>, i: int) -> Seq<Measure> {
    if 0 <= i < ms.len() {
        ms[i].children@
    } else {
        Seq::empty()
    }
}

/// The width and height of a box are numbers that are not negative, and its corners are finite.
pub open spec fn sound(r: Rect) -> bool {
    r.finite() && at_least_zero(r.x1.difference(r.x0)) && at_least_zero(r.y1.difference(r.y0))
}

pub open spec fn at_least_zero(a: Scalar) -> bool {
    !a.nan() && !a.less(Scalar { bits: 0 })
}

fn not_negative(a: Scalar) -> (r: bool)
    ensures
        r == at_least_zero(a),
{
    !a.is_nan() && !a.lt(Scalar { bits: 0 })
}

/// The box, where it is sound.
pub open spec fn kept(r: Option<Rect>) -> Option<Rect> {
    match r {
        Some(r) if sound(r) => Some(r),
        _ => None,
    }
}

/// The box of two boxes.
pub open spec fn merged(a: Option<Rect>, b: Option<Rect>) -> Option<Rect> {
    match (a, b) {
        (Some(a), Some(b)) => Some(a.joined(b)),
        (Some(a), None) => Some(a),
        (None, b) => b,
    }
}

fn merge(a: Option<Rect>, b: Option<Rect>) -> (r: Option<Rect>)
    ensures
        r == merged(a, b),
{
    match (a, b) {
        (Some(a), Some(b)) => Some(a.union(b)),
        (Some(a), None) => Some(a),
        (None, b) => b,
    }
}

/// The box of all boxes; none where there is no box.
pub open spec fn union_of(boxes: Seq<Rect>) -> Option<Rect>
    decreases boxes.len(),
{
    if boxes.len() == 0 {
        None
    } else {
        merged(union_of(boxes.drop_last()), Some(boxes.last()))
    }
}

/// The box of all boxes; none where there is no box.
pub fn union_all(boxes: &Vec<Rect>) -> (r: Option<Rect>)
    ensures
        r == union_of(boxes@),
{
    let mut r: Option<Rect> = None;
    let mut i: usize = 0;
    while i < boxes.len()
        invariant
            i <= boxes@.len(),
            r == union_of(boxes@.take(i as int)),
        decreases boxes.len() - i,
    {
        assert(boxes@.take(i + 1).drop_last() =~= boxes@.take(i as int));
        r = merge(r, Some(boxes[i]));
        i += 1;
    }
    assert(boxes@.take(boxes@.len() as int) =~= boxes@);
    r
}

/// A point as a box without extent.
pub open spec fn point_rect(p: Point) -> Rect {
    Rect { x0: p.x, y0: p.y, x1: p.x, y1: p.y }.ordered()
}

/// A point as a box without extent.
pub fn pt_box(p: Point) -> (r: Rect)
    ensures
        r == point_rect(p),
{
    Rect::from_points(p, p)
}

/// The box of the finite points.
pub open spec fn finite_points(points: Seq<Point>) -> Option<Rect>
    decreases points.len(),
{
    if points.len() == 0 {
        None
    } else {
        let rest = finite_points(points.drop_last());
        if points.last().finite() {
            merged(rest, Some(point_rect(points.last())))
        } else {
            rest
        }
    }
}

/// The box of the finite points; none where there is none.
pub fn points_box(points: &Vec<Point>) -> (r: Option<Rect>)
    ensures
        r == finite_points(points@),
{
    let mut r: Option<Rect> = None;
    let mut i: usize = 0;
    while i < points.len()
        invariant
            i <= points@.len(),
            r == finite_points(points@.take(i as int)),
        decreases points.len() - i,
    {
        assert(points@.take(i + 1).drop_last() =~= points@.take(i as int));
        if points[i].is_finite() {
            r = merge(r, Some(pt_box(points[i])));
        }
        i += 1;
    }
    assert(points@.take(points@.len() as int) =~= points@);
    r
}

/// The rectangle with its corners in order.
pub open spec fn in_order(r: Rect) -> Rect {
    let o = r.ordered();
    Rect {
        x0: o.x0.least(o.x1),
        y0: o.y0.least(o.y1),
        x1: o.x1.greatest(o.x0),
        y1: o.y1.greatest(o.y0),
    }
}

/// The rectangle with its corners in order.
pub fn normalized(r: Rect) -> (n: Rect)
    ensures
        n == in_order(r),
{
    Rect {
        x0: r.min_x().min(r.max_x()),
        y0: r.min_y().min(r.max_y()),
        x1: r.max_x().max(r.min_x()),
        y1: r.max_y().max(r.min_y()),
    }
}

/// Half the stroke width, where there is a stroke with a positive finite width.
pub open spec fn inset(stroke: Option<Stroke>) -> Option<Scalar> {
    match stroke {
        Some(s) if s.width.finite() && Scalar { bits: 0 }.less(s.width) => Some(
            s.width.quotient(Scalar { bits: TWO_BITS }),
        ),
        _ => None,
    }
}

/// The box with room for the stroke.
pub open spec fn outset(r: Rect, stroke: Option<Stroke>) -> Rect {
    match inset(stroke) {
        Some(pad) => r.padded(pad),
        None => r,
    }
}

fn stroke_pad(stroke: &Stroke) -> (r: Option<Scalar>)
    ensures
        r == inset(Some(*stroke)),
{
    let w = stroke.width;
    if w.is_finite() && (Scalar { bits: 0 }).lt(w) {
        Some(w.div(Scalar { bits: TWO_BITS }))
    } else {
        None
    }
}

/// Half the stroke width, where there is a stroke with a positive finite width.
pub fn stroke_inset(stroke: &Option<Stroke>) -> (r: Option<Scalar>)
    ensures
        r == inset(*stroke),
{
    match stroke {
        Some(s) => stroke_pad(s),
        None => None,
    }
}

fn pad_box(r: Rect, pad: Option<Scalar>) -> (b: Rect)
    ensures
        b == (match pad {
            Some(pad) => r.padded(pad),
            None => r,
        }),
{
    match pad {
        Some(pad) => r.inflate(pad, pad),
        None => r,
    }
}

/// The box with room for the stroke.
pub fn inflate(r: Rect, stroke: &Option<Stroke>) -> (b: Rect)
    ensures
        b == outset(r, *stroke),
{
    pad_box(r, stroke_inset(stroke))
}

/// The box has a width and a height above zero.
pub open spec fn spacious(r: Rect) -> bool {
    (Scalar { bits: 0 }).less(r.x1.difference(r.x0)) && (Scalar { bits: 0 }).less(
        r.y1.difference(r.y0),
    )
}

/// The box of a shape with room for the stroke; none for a shape without area that no stroke
/// makes visible.
pub open spec fn outlined(r: Rect, stroke: Option<Stroke>) -> Option<Rect> {
    if spacious(r) || inset(stroke) is Some {
        Some(outset(r, stroke))
    } else {
        None
    }
}

fn has_area(r: Rect) -> (b: bool)
    ensures
        b == spacious(r),
{
    let zero = Scalar { bits: 0 };
    zero.lt(r.width()) && zero.lt(r.height())
}

fn stroked_box(r: Rect, stroke: &Option<Stroke>) -> (b: Option<Rect>)
    ensures
        b == outlined(r, *stroke),
{
    if has_area(r) || stroke_inset(stroke).is_some() {
        Some(inflate(r, stroke))
    } else {
        None
    }
}

fn lined_box(r: Rect, stroke: &Stroke) -> (b: Option<Rect>)
    ensures
        b == outlined(r, Some(*stroke)),
{
    let pad = stroke_pad(stroke);
    if has_area(r) || pad.is_some() {
        Some(pad_box(r, pad))
    } else {
        None
    }
}

/// The box of a circle; none where the radius is not finite or nothing of it shows.
pub open spec fn circle_rect(
    center: Point,
    radius: Scalar,
    stroke: Option<Stroke>,
) -> Option<Rect> {
    let r = radius.absolute();
    if r.finite() {
        outlined(
            Rect {
                x0: center.x.difference(r),
                y0: center.y.difference(r),
                x1: center.x.sum(r),
                y1: center.y.sum(r),
            },
            stroke,
        )
    } else {
        None
    }
}

/// The box of a circle; none where the radius is not finite or nothing of it shows.
pub fn circle_box(center: Point, radius: Scalar, stroke: &Option<Stroke>) -> (b: Option<Rect>)
    ensures
        b == circle_rect(center, radius, *stroke),
{
    let r = radius.abs();
    if !r.is_finite() {
        return None;
    }
    stroked_box(
        Rect { x0: center.x.sub(r), y0: center.y.sub(r), x1: center.x.add(r), y1: center.y.add(r) },
        stroke,
    )
}

/// The first angle from `lo` on that is `k` up to full turns.
pub open spec fn next_angle(k: Scalar, lo: Scalar) -> Scalar {
    let turn = Scalar { bits: TURN_BITS };
    k.sum(lo.difference(k).quotient(turn).ceiled().product(turn))
}

/// The angle at which the ellipse is extreme in direction `k`, where the sweep reaches it.
pub open spec fn extremum(k: Scalar, lo: Scalar, hi: Scalar) -> Seq<Scalar> {
    let theta = next_angle(k, lo);
    if !theta.nan() && !hi.nan() && !hi.less(theta) {
        seq![theta]
    } else {
        Seq::empty()
    }
}

/// The lesser and the greater end of a sweep.
pub open spec fn sweep_ends(start: Scalar, sweep: Scalar) -> (Scalar, Scalar) {
    if at_least_zero(sweep) {
        (start, start.sum(sweep))
    } else {
        (start.sum(sweep), start)
    }
}

/// The angles at which an arc can be extreme: its ends, and the axis directions inside its sweep.
pub open spec fn extreme_angles(start: Scalar, sweep: Scalar) -> Seq<Scalar> {
    let (lo, hi) = sweep_ends(start, sweep);
    let ends = seq![start, start.sum(sweep)];
    if lo.finite() && hi.finite() {
        ends + extremum(Scalar { bits: 0 }, lo, hi) + extremum(
            Scalar { bits: HALF_TURN_BITS },
            lo,
            hi,
        ) + extremum(Scalar { bits: QUARTER_BITS }, lo, hi) + extremum(
            Scalar { bits: QUARTER_BACK_BITS },
            lo,
            hi,
        )
    } else {
        ends
    }
}

fn push_extremum(angles: &mut Vec<Scalar>, k: Scalar, lo: Scalar, hi: Scalar)
    ensures
        final(angles)@ == old(angles)@ + extremum(k, lo, hi),
{
    let turn = Scalar { bits: TURN_BITS };
    let theta = k.add(lo.sub(k).div(turn).ceil().mul(turn));
    if !theta.is_nan() && !hi.is_nan() && !hi.lt(theta) {
        angles.push(theta);
    }
    proof {
        assert(final(angles)@ =~= old(angles)@ + extremum(k, lo, hi));
    }
}

/// The angles at which an arc can be extreme.
pub fn arc_extrema(start: Scalar, sweep: Scalar) -> (angles: Vec<Scalar>)
    ensures
        angles@ == extreme_angles(start, sweep),
{
    let end = start.add(sweep);
    let (lo, hi) = if not_negative(sweep) {
        (start, end)
    } else {
        (end, start)
    };
    let mut angles: Vec<Scalar> = Vec::new();
    angles.push(start);
    angles.push(end);
    assert(angles@ =~= seq![start, start.sum(sweep)]);
    if lo.is_finite() && hi.is_finite() {
        push_extremum(&mut angles, Scalar { bits: 0 }, lo, hi);
        push_extremum(&mut angles, Scalar { bits: HALF_TURN_BITS }, lo, hi);
        push_extremum(&mut angles, Scalar { bits: QUARTER_BITS }, lo, hi);
        push_extremum(&mut angles, Scalar { bits: QUARTER_BACK_BITS }, lo, hi);
    }
    angles
}

/// The points of an ellipse in given directions.
pub open spec fn ellipse_points(center: Point, radii: Vec2, directions: Seq<Vec2>) -> Seq<Point> {
    Seq::new(
        directions.len(),
        |i: int|
            Point {
                x: center.x.sum(radii.x.absolute().product(directions[i].x)),
                y: center.y.sum(radii.y.absolute().product(directions[i].y)),
            },
    )
}

/// The box of an arc, given the directions of its extreme angles; its center where none of
/// its points is finite.
pub open spec fn arc_rect(center: Point, radii: Vec2, directions: Seq<Vec2>) -> Rect {
    match finite_points(ellipse_points(center, radii, directions)) {
        Some(r) => r,
        None => point_rect(center),
    }
}

/// The box of an arc; `directions` are the cosines and sines of [`arc_extrema`].
pub fn arc_box(center: Point, radii: Vec2, directions: &Vec<Vec2>) -> (r: Rect)
    ensures
        r == arc_rect(center, radii, directions@),
{
    let rx = radii.x.abs();
    let ry = radii.y.abs();
    let mut points: Vec<Point> = Vec::new();
    let mut i: usize = 0;
    while i < directions.len()
        invariant
            i <= directions@.len(),
            rx == radii.x.absolute(),
            ry == radii.y.absolute(),
            points@ == ellipse_points(center, radii, directions@).take(i as int),
        decreases directions.len() - i,
    {
        let d = directions[i];
        points.push(Point { x: center.x.add(rx.mul(d.x)), y: center.y.add(ry.mul(d.y)) });
        i += 1;
        assert(points@ =~= ellipse_points(center, radii, directions@).take(i as int));
    }
    assert(points@ =~= ellipse_points(center, radii, directions@));
    match points_box(&points) {
        Some(r) => r,
        None => pt_box(center),
    }
}

/// The corners of a box, moved by a transform about a point.
pub open spec fn moved_corners(t: Transform, r: Rect, pivot: Point) -> Seq<Point> {
    let o = r.ordered();
    seq![
        moved(t, Point { x: o.x0, y: o.y0 }, pivot),
        moved(t, Point { x: o.x1, y: o.y0 }, pivot),
        moved(t, Point { x: o.x1, y: o.y1 }, pivot),
        moved(t, Point { x: o.x0, y: o.y1 }, pivot),
    ]
}

/// The image of a point under a transform about another.
pub open spec fn moved(t: Transform, c: Point, pivot: Point) -> Point {
    let p = t.image(Point { x: c.x.difference(pivot.x), y: c.y.difference(pivot.y) });
    Point { x: p.x.sum(pivot.x), y: p.y.sum(pivot.y) }
}

fn move_about(t: &Transform, c: Point, pivot: Point) -> (q: Point)
    ensures
        q == moved(*t, c, pivot),
{
    let p = t.apply_point(Point { x: c.x.sub(pivot.x), y: c.y.sub(pivot.y) });
    Point { x: p.x.add(pivot.x), y: p.y.add(pivot.y) }
}

/// The box of a box moved by a transform about a point; none where no corner stays finite.
pub fn transform_box_about(t: &Transform, r: Rect, pivot: Point) -> (b: Option<Rect>)
    ensures
        b == finite_points(moved_corners(*t, r, pivot)),
{
    let mut corners: Vec<Point> = Vec::new();
    corners.push(move_about(t, Point { x: r.min_x(), y: r.min_y() }, pivot));
    corners.push(move_about(t, Point { x: r.max_x(), y: r.min_y() }, pivot));
    corners.push(move_about(t, Point { x: r.max_x(), y: r.max_y() }, pivot));
    corners.push(move_about(t, Point { x: r.min_x(), y: r.max_y() }, pivot));
    assert(corners@ =~= moved_corners(*t, r, pivot));
    points_box(&corners)
}

/// The box of a box moved by a transform; the box itself where no corner stays finite.
pub open spec fn moved_box(t: Transform, r: Rect) -> Rect {
    let origin = Point { x: Scalar { bits: 0 }, y: Scalar { bits: 0 } };
    match finite_points(moved_corners(t, r, origin)) {
        Some(b) => b,
        None => r,
    }
}

/// The box of a box moved by a transform; the box itself where no corner stays finite.
pub fn transform_box(t: &Transform, r: Rect) -> (b: Rect)
    ensures
        b == moved_box(*t, r),
{
    let origin = Point { x: Scalar { bits: 0 }, y: Scalar { bits: 0 } };
    match transform_box_about(t, r, origin) {
        Some(b) => b,
        None => r,
    }
}

/// The text has an extent.
pub open spec fn extended(size: Size) -> bool {
    size.width.finite() && size.height.finite() && Scalar { bits: 0 }.less(size.width)
        && Scalar { bits: 0 }.less(size.height)
}

/// The left and right edges of a text at an anchor.
pub open spec fn text_columns(x: Scalar, w: Scalar, align: TextAlign) -> (Scalar, Scalar) {
    let half = w.quotient(Scalar { bits: TWO_BITS });
    match align {
        TextAlign::Left => (x, x.sum(w)),
        TextAlign::Justify => (x, x.sum(w)),
        TextAlign::Center => (x.difference(half), x.sum(half)),
        TextAlign::Right => (x.difference(w), x),
    }
}

/// The upper and lower edges of a text at an anchor; a baseline has four fifths of the height
/// above it.
pub open spec fn text_rows(y: Scalar, h: Scalar, baseline: TextBaseline) -> (Scalar, Scalar) {
    let half = h.quotient(Scalar { bits: TWO_BITS });
    match baseline {
        TextBaseline::Top => (y, y.sum(h)),
        TextBaseline::Middle => (y.difference(half), y.sum(half)),
        TextBaseline::Bottom => (y.difference(h), y),
        _ => (
            y.difference(h.product(Scalar { bits: ASCENT_BITS })),
            y.sum(h.product(Scalar { bits: DESCENT_BITS })),
        ),
    }
}

/// A rotation with a given cosine and sine.
pub open spec fn turning(turn: Vec2) -> Transform {
    Transform {
        a: turn.x,
        b: turn.y,
        c: turn.y.negated(),
        d: turn.x,
        e: Scalar { bits: 0 },
        f: Scalar { bits: 0 },
    }
}

/// The box of a text of a given size; `turn` is the cosine and the sine of its rotation.
pub open spec fn text_rect(
    position: Point,
    style: TextStyle,
    size: Option<Size>,
    turn: Vec2,
) -> Option<Rect> {
    match size {
        Some(size) if extended(size) => {
            let (x0, x1) = text_columns(position.x, size.width, style.align);
            let (y0, y1) = text_rows(position.y, size.height, style.baseline);
            let r = Rect {
                x0,
                y0: y0.difference(style.baseline_shift),
                x1,
                y1: y1.difference(style.baseline_shift),
            };
            if !style.rotation.same(Scalar { bits: 0 }) && style.rotation.finite() {
                finite_points(moved_corners(turning(turn), r, position))
            } else {
                Some(r)
            }
        },
        _ => None,
    }
}

/// The box of a text of a given size, turned about its anchor.
pub fn text_box(position: Point, style: &TextStyle, size: Option<Size>, turn: Vec2) -> (b: Option<
    Rect,
>)
    ensures
        b == text_rect(position, *style, size, turn),
{
    let size = match size {
        Some(size) => size,
        None => {
            return None;
        },
    };
    let zero = Scalar { bits: 0 };
    let (w, h) = (size.width, size.height);
    if !w.is_finite() || !h.is_finite() || !zero.lt(w) || !zero.lt(h) {
        return None;
    }
    let two = Scalar { bits: TWO_BITS };
    let (x0, x1) = match style.align {
        TextAlign::Left | TextAlign::Justify => (position.x, position.x.add(w)),
        TextAlign::Center => (position.x.sub(w.div(two)), position.x.add(w.div(two))),
        TextAlign::Right => (position.x.sub(w), position.x),
    };
    let (y0, y1) = match style.baseline {
        TextBaseline::Top => (position.y, position.y.add(h)),
        TextBaseline::Middle => (position.y.sub(h.div(two)), position.y.add(h.div(two))),
        TextBaseline::Bottom => (position.y.sub(h), position.y),
        _ => (
            position.y.sub(h.mul(Scalar { bits: ASCENT_BITS })),
            position.y.add(h.mul(Scalar { bits: DESCENT_BITS })),
        ),
    };
    let shift = style.baseline_shift;
    let r = Rect { x0, y0: y0.sub(shift), x1, y1: y1.sub(shift) };
    if !style.rotation.same_value(zero) && style.rotation.is_finite() {
        let t = Transform::rotate(turn.y, turn.x);
        assert(t == turning(turn));
        transform_box_about(&t, r, position)
    } else {
        Some(r)
    }
}

/// The box of an image: its frame, and its own extent where it is not scaled.
pub open spec fn image_rect(frame: Rect, fit: ObjectFit, columns: u32, rows: u32) -> Rect {
    let r = in_order(frame);
    if fit == ObjectFit::Original {
        let o = r.ordered();
        r.joined(
            Rect {
                x0: o.x0,
                y0: o.y0,
                x1: o.x0.sum(Scalar::integer(columns as nat)),
                y1: o.y0.sum(Scalar::integer(rows as nat)),
            }.ordered(),
        )
    } else {
        r
    }
}

/// The padded box of a measure.
pub open spec fn measured_rect(m: Facts, stroke: Option<Stroke>) -> Option<Rect> {
    match m.bounds {
        Some(b) => outlined(b, stroke),
        None => None,
    }
}

/// The size of a text: that of its layout, or the measured one.
pub open spec fn text_size(el: Element, m: Facts) -> Option<Size> {
    match el {
        Element::Text { spans, position, style, layout } => match layout {
            Some(l) => Some(Size { width: l.width, height: l.height }),
            None => m.size,
        },
        _ => None,
    }
}

/// The box of a primitive before it is checked; none for a group.
#[verifier::opaque]
pub open spec fn primitive_rect(el: Element, m: Facts) -> Option<Rect> {
    match el {
        Element::Rect { rect, style } => outlined(in_order(rect), style.stroke),
        Element::RoundedRect { rect, radius, style } => outlined(in_order(rect), style.stroke),
        Element::Circle { center, radius, style } => circle_rect(center, radius, style.stroke),
        Element::Ellipse { center, radii, rotation, style } => measured_rect(m, style.stroke),
        Element::Line { start, end, style } => outlined(
            Rect { x0: start.x, y0: start.y, x1: end.x, y1: end.y }.ordered(),
            Some(style),
        ),
        Element::Polyline { points, style } => match finite_points(points@) {
            Some(r) => outlined(r, Some(style)),
            None => None,
        },
        Element::Polygon { points, style } => match finite_points(points@) {
            Some(r) => outlined(r, style.stroke),
            None => None,
        },
        Element::Arc { center, radii, start_angle, sweep_angle, style } => outlined(
            arc_rect(center, radii, m.directions),
            Some(style),
        ),
        Element::Pie { center, radius, start_angle, sweep_angle, style } => circle_rect(
            center,
            radius,
            style.stroke,
        ),
        Element::Path { path, style, closed } => if path@.len() == 0 {
            None
        } else {
            measured_rect(m, style.stroke)
        },
        Element::GradientPath { path, gradient, stroke } => if path@.len() == 0 {
            None
        } else {
            measured_rect(m, stroke)
        },
        Element::Image { image, frame, opacity } => outlined(
            image_rect(frame, image.object_fit, image.pixmap.columns(), image.pixmap.rows()),
            None,
        ),
        Element::Text { spans, position, style, layout } => text_rect(
            position,
            style,
            text_size(el, m),
            m.turn,
        ),
        Element::Group { children } => None,
    }
}

/// The box of an element in its own coordinates, where it is sound.
pub open spec fn element_rect(el: Element, m: Facts, ms: Seq<Measure>) -> Option<Rect>
    decreases el, 0nat,
{
    match el {
        Element::Group { children } => kept(nodes_rect(children@, ms, children@.len())),
        _ => kept(primitive_rect(el, m)),
    }
}

/// The box of a node; none where it is hidden.
pub open spec fn node_rect(node: SceneNode, m: Facts, ms: Seq<Measure>) -> Option<Rect>
    decreases node, 0nat,
{
    if !node.visible {
        None
    } else {
        match (element_rect(node.element, m, ms), node.transform) {
            (Some(r), Some(t)) => Some(moved_box(t, r)),
            (r, _) => r,
        }
    }
}

/// The box of the first `n` nodes.
pub open spec fn nodes_rect(nodes: Seq<SceneNode>, ms: Seq<Measure>, n: nat) -> Option<Rect>
    decreases nodes, n,
{
    if n == 0 || n > nodes.len() {
        None
    } else {
        let i = n - 1;
        merged(
            nodes_rect(nodes, ms, i as nat),
            node_rect(nodes[i], facts_at(ms, i), below(ms, i)),
        )
    }
}

/// The box of a primitive before it is checked.
fn primitive_box(el: &Element, m: &Measure) -> (b: Option<Rect>)
    requires
        !(el is Group),
    ensures
        b == primitive_rect(*el, m.facts()),
{
    proof {
        reveal(primitive_rect);
    }
    match el {
        Element::Rect { rect, style } => stroked_box(normalized(*rect), &style.stroke),
        Element::RoundedRect { rect, radius: _, style } => stroked_box(
            normalized(*rect),
            &style.stroke,
        ),
        Element::Circle { center, radius, style } => circle_box(*center, *radius, &style.stroke),
        Element::Ellipse { center: _, radii: _, rotation: _, style } => match m.bounds {
            Some(b) => stroked_box(b, &style.stroke),
            None => None,
        },
        Element::Line { start, end, style } => lined_box(
            Rect::from_points(*start, *end),
            style,
        ),
        Element::Polyline { points, style } => match points_box(points) {
            Some(r) => lined_box(r, style),
            None => None,
        },
        Element::Polygon { points, style } => match points_box(points) {
            Some(r) => stroked_box(r, &style.stroke),
            None => None,
        },
        Element::Arc { center, radii, start_angle: _, sweep_angle: _, style } => lined_box(
            arc_box(*center, *radii, &m.directions),
            style,
        ),
        Element::Pie { center, radius, start_angle: _, sweep_angle: _, style } => circle_box(
            *center,
            *radius,
            &style.stroke,
        ),
        Element::Path { path, style, closed: _ } => if path.is_empty() {
            None
        } else {
            match m.bounds {
                Some(b) => stroked_box(b, &style.stroke),
                None => None,
            }
        },
        Element::GradientPath { path, gradient: _, stroke } => if path.is_empty() {
            None
        } else {
            match m.bounds {
                Some(b) => stroked_box(b, stroke),
                None => None,
            }
        },
        Element::Image { image, frame, opacity: _ } => {
            let r = normalized(*frame);
            match image.object_fit {
                ObjectFit::Original => {
                    let own = Rect::from_origin_size(
                        Point { x: r.min_x(), y: r.min_y() },
                        Size {
                            width: Scalar::from_u64(image.width() as u64),
                            height: Scalar::from_u64(image.height() as u64),
                        },
                    );
                    stroked_box(r.union(own), &None)
                },
                _ => stroked_box(r, &None),
            }
        },
        Element::Text { spans: _, position, style, layout } => {
            let size = match layout {
                Some(l) => Some(Size { width: l.width, height: l.height }),
                None => m.size,
            };
            text_box(*position, style, size, m.turn)
        },
        Element::Group { children: _ } => None,
    }
}

fn keep(r: Option<Rect>) -> (k: Option<Rect>)
    ensures
        k == kept(r),
{
    match r {
        Some(r) => if r.is_finite() && not_negative(r.width()) && not_negative(r.height()) {
            Some(r)
        } else {
            None
        },
        None => None,
    }
}

/// The box of an element in its own coordinates.
///
/// None for an element that occupies no area, such as a rectangle of width or height zero without
/// a stroke, and for one whose box is not finite. A group without area keeps its box.
pub fn element_bounds(el: &Element, m: &Measure) -> (b: Option<Rect>)
    ensures
        b == element_rect(*el, m.facts(), m.children@),
    decreases el, 0nat,
{
    match el {
        Element::Group { children } => keep(nodes_bounds(children, &m.children)),
        _ => keep(primitive_box(el, m)),
    }
}

/// The box of a node, moved by its transform; none where it is hidden.
///
/// A clip only takes away, so it does not count.
pub fn node_bounds(node: &SceneNode, m: &Measure) -> (b: Option<Rect>)
    ensures
        b == node_rect(*node, m.facts(), m.children@),
    decreases node, 0nat,
{
    if !node.visible {
        return None;
    }
    match element_bounds(&node.element, m) {
        Some(r) => match &node.transform {
            Some(t) => Some(transform_box(t, r)),
            None => Some(r),
        },
        None => None,
    }
}

/// The box of nodes.
pub fn nodes_bounds(nodes: &Vec<SceneNode>, ms: &Vec<Measure>) -> (b: Option<Rect>)
    ensures
        b == nodes_rect(nodes@, ms@, nodes@.len()),
    decreases nodes@, nodes@.len() + 1,
{
    let unknown = Measure::none();
    let mut b: Option<Rect> = None;
    let mut i: usize = 0;
    while i < nodes.len()
        invariant
            i <= nodes@.len(),
            unknown.facts() == no_facts(),
            unknown.children@ == Seq::<Measure>::empty(),
            b == nodes_rect(nodes@, ms@, i as nat),
        decreases nodes.len() - i,
    {
        let r = if i < ms.len() {
            node_bounds(&nodes[i], &ms[i])
        } else {
            node_bounds(&nodes[i], &unknown)
        };
        b = merge(b, r);
        i += 1;
    }
    b
}

/// The measures of a layer; none where they are missing.
pub open spec fn layer_measures(ms: Seq<Vec<Measure>>, i: int) -> Seq<Measure> {
    if 0 <= i < ms.len() {
        ms[i]@
    } else {
        Seq::empty()
    }
}

/// The box of a layer; none where it is hidden.
pub open spec fn layer_rect(layer: Layer, ms: Seq<Measure>) -> Option<Rect> {
    if !layer.visible {
        None
    } else {
        match (nodes_rect(layer.nodes@, ms, layer.nodes@.len()), layer.transform) {
            (Some(r), Some(t)) => Some(moved_box(t, r)),
            (r, _) => r,
        }
    }
}

/// The boxes of the nodes and of the first `n` layers of a scene.
pub open spec fn scene_boxes(s: Scene, m: SceneMeasure, n: nat) -> Seq<Rect>
    decreases n,
{
    if n == 0 || n > s.layers@.len() {
        listed(nodes_rect(s.nodes@, m.nodes@, s.nodes@.len()))
    } else {
        let i = n - 1;
        scene_boxes(s, m, i as nat) + listed(
            layer_rect(s.layers@[i], layer_measures(m.layers@, i)),
        )
    }
}

/// The box as a list.
pub open spec fn listed(r: Option<Rect>) -> Seq<Rect> {
    match r {
        Some(r) => seq![r],
        None => Seq::empty(),
    }
}

/// The box of a scene: of its nodes and of its visible layers.
pub open spec fn scene_rect(s: Scene, m: SceneMeasure) -> Option<Rect> {
    union_of(scene_boxes(s, m, s.layers@.len()))
}

fn layer_bounds(layer: &Layer, ms: &Vec<Measure>) -> (b: Option<Rect>)
    ensures
        b == layer_rect(*layer, ms@),
{
    if !layer.visible {
        return None;
    }
    match nodes_bounds(&layer.nodes, ms) {
        Some(r) => match &layer.transform {
            Some(t) => Some(transform_box(t, r)),
            None => Some(r),
        },
        None => None,
    }
}

/// The box of a scene: of its nodes and of its visible layers.
pub fn scene_bounds(s: &Scene, m: &SceneMeasure) -> (b: Option<Rect>)
    ensures
        b == scene_rect(*s, *m),
{
    let missing: Vec<Measure> = Vec::new();
    assert(missing@ =~= Seq::<Measure>::empty());
    let mut boxes: Vec<Rect> = Vec::new();
    if let Some(r) = nodes_bounds(&s.nodes, &m.nodes) {
        boxes.push(r);
    }
    assert(boxes@ =~= scene_boxes(*s, *m, 0));
    let mut i: usize = 0;
    while i < s.layers.len()
        invariant
            i <= s.layers@.len(),
            missing@ == Seq::<Measure>::empty(),
            boxes@ == scene_boxes(*s, *m, i as nat),
        decreases s.layers.len() - i,
    {
        let r = if i < m.layers.len() {
            layer_bounds(&s.layers[i], &m.layers[i])
        } else {
            layer_bounds(&s.layers[i], &missing)
        };
        if let Some(r) = r {
            boxes.push(r);
        }
        i += 1;
        assert(boxes@ =~= scene_boxes(*s, *m, i as nat));
    }
    union_all(&boxes)
}

/// How a scene is fitted.
#[derive(Debug, Clone, Copy)]
pub struct FitOptions {
    /// Largest canvas width, margins counted; `None` for no limit.
    pub max_width: Option<Scalar>,
    /// Largest canvas height, margins counted; `None` for no limit.
    pub max_height: Option<Scalar>,
    /// Space on each side of the content.
    pub margin: Scalar,
    /// Whether content is enlarged to the limits.
    pub upscale: bool,
    /// Canvas size for a scene without content; `None` leaves the size as it is.
    pub empty_size: Option<Size>,
}

/// No limits, no margin.
pub open spec fn plain_options() -> FitOptions {
    FitOptions {
        max_width: None,
        max_height: None,
        margin: Scalar { bits: 0 },
        upscale: false,
        empty_size: None,
    }
}

impl Default for FitOptions {
    fn default() -> (r: FitOptions)
        ensures
            r == plain_options(),
    {
        FitOptions {
            max_width: None,
            max_height: None,
            margin: Scalar { bits: 0 },
            upscale: false,
            empty_size: None,
        }
    }
}

impl FitOptions {
    pub fn new() -> (r: FitOptions)
        ensures
            r == plain_options(),
    {
        FitOptions::default()
    }

    /// Limits the canvas width.
    pub fn with_max_width(self, w: Scalar) -> (r: FitOptions)
        ensures
            r == (FitOptions { max_width: Some(w), ..self }),
    {
        FitOptions { max_width: Some(w), ..self }
    }

    /// Limits the canvas height.
    pub fn with_max_height(self, h: Scalar) -> (r: FitOptions)
        ensures
            r == (FitOptions { max_height: Some(h), ..self }),
    {
        FitOptions { max_height: Some(h), ..self }
    }

    /// Sets the margin.
    pub fn with_margin(self, margin: Scalar) -> (r: FitOptions)
        ensures
            r == (FitOptions { margin, ..self }),
    {
        FitOptions { margin, ..self }
    }

    /// Allows content to be enlarged.
    pub fn with_upscale(self, upscale: bool) -> (r: FitOptions)
        ensures
            r == (FitOptions { upscale, ..self }),
    {
        FitOptions { upscale, ..self }
    }

    /// Sets the canvas size for a scene without content.
    pub fn with_empty_size(self, size: Size) -> (r: FitOptions)
        ensures
            r == (FitOptions { empty_size: Some(size), ..self }),
    {
        FitOptions { empty_size: Some(size), ..self }
    }
}

/// A limit or margin that is positive and finite.
pub open spec fn meaningful(v: Scalar) -> bool {
    v.finite() && Scalar { bits: 0 }.less(v)
}

/// The margin; 0 where it is not positive and finite.
pub open spec fn margin_of(opts: FitOptions) -> Scalar {
    if meaningful(opts.margin) {
        opts.margin
    } else {
        Scalar { bits: 0 }
    }
}

/// The room for content under a limit: at least 1, and infinite without a limit.
pub open spec fn room(max: Option<Scalar>, margin: Scalar) -> Scalar {
    match max {
        Some(v) if meaningful(v) => v.difference(
            Scalar { bits: TWO_BITS }.product(margin),
        ).greatest(Scalar { bits: ONE_BITS }),
        _ => Scalar { bits: INFINITY_BITS },
    }
}

/// An extent of content, at least 1.
pub open spec fn extent(lo: Scalar, hi: Scalar) -> Scalar {
    hi.difference(lo).greatest(Scalar { bits: ONE_BITS })
}

/// The scale at which content fills the room on the tighter axis; 1 without limits.
pub open spec fn natural_scale(b: Rect, opts: FitOptions) -> Scalar {
    let margin = margin_of(opts);
    let s = room(opts.max_width, margin).quotient(extent(b.x0, b.x1)).least(
        room(opts.max_height, margin).quotient(extent(b.y0, b.y1)),
    );
    if s.finite() {
        s
    } else {
        Scalar { bits: ONE_BITS }
    }
}

/// The scale of a fit: positive, and at most 1 unless content may be enlarged.
pub open spec fn fit_scale(b: Rect, opts: FitOptions) -> Scalar {
    natural_scale(b, opts).clamped(
        Scalar { bits: LEAST_SCALE_BITS },
        if opts.upscale {
            Scalar { bits: LARGEST_BITS }
        } else {
            Scalar { bits: ONE_BITS }
        },
    )
}

/// A side of the canvas: the scaled content and two margins.
pub open spec fn canvas_side(extent: Scalar, scale: Scalar, margin: Scalar) -> Scalar {
    extent.product(scale).sum(Scalar { bits: TWO_BITS }.product(margin))
}

/// The shift that moves a scaled edge to the margin.
pub open spec fn shift_of(edge: Scalar, scale: Scalar, margin: Scalar) -> Scalar {
    margin.difference(edge.product(scale))
}

/// Scaling, and a shift after it.
pub open spec fn scaled_and_shifted(k: Scalar, dx: Scalar, dy: Scalar) -> Transform {
    let zero = Scalar { bits: 0 };
    let one = Scalar { bits: ONE_BITS };
    Transform { a: one, b: zero, c: zero, d: one, e: dx, f: dy }.after(
        Transform { a: k, b: zero, c: zero, d: k, e: zero, f: zero },
    )
}

/// The transform of a fit: scale, and move to the margin.
pub open spec fn fit_transform(b: Rect, opts: FitOptions) -> Transform {
    let k = fit_scale(b, opts);
    let o = b.ordered();
    let m = margin_of(opts);
    scaled_and_shifted(k, shift_of(o.x0, k, m), shift_of(o.y0, k, m))
}

/// The content is in place already: the shift is below half a unit and the scale is 1 up to
/// rounding.
pub open spec fn in_place(b: Rect, opts: FitOptions) -> bool {
    let scale = fit_scale(b, opts);
    let o = b.ordered();
    let margin = margin_of(opts);
    let half = Scalar { bits: HALF_BITS };
    shift_of(o.x0, scale, margin).absolute().less(half) && shift_of(
        o.y0,
        scale,
        margin,
    ).absolute().less(half) && scale.difference(Scalar { bits: ONE_BITS }).absolute().less(
        Scalar { bits: NEAR_BITS },
    )
}

/// The box that a scene is fitted to.
pub open spec fn fit_box(s: Scene, m: SceneMeasure) -> Option<Rect> {
    match scene_rect(s, m) {
        Some(b) if b.finite() => Some(b),
        _ => None,
    }
}

/// The transform of a layer with a fit after its own.
pub open spec fn layer_fit(own: Option<Transform>, fit: Transform) -> Transform {
    match own {
        Some(t) => fit.after(t),
        None => fit,
    }
}

fn sanitize_max(v: Option<Scalar>) -> (r: Option<Scalar>)
    ensures
        r == (match v {
            Some(x) if meaningful(x) => Some(x),
            _ => None,
        }),
{
    match v {
        Some(x) => if x.is_finite() && (Scalar { bits: 0 }).lt(x) {
            Some(x)
        } else {
            None
        },
        None => None,
    }
}

fn room_for(max: Option<Scalar>, margin: Scalar) -> (r: Scalar)
    ensures
        r == room(max, margin),
{
    match sanitize_max(max) {
        Some(v) => v.sub((Scalar { bits: TWO_BITS }).mul(margin)).max(Scalar { bits: ONE_BITS }),
        None => Scalar { bits: INFINITY_BITS },
    }
}

fn clean_margin(margin: Scalar) -> (r: Scalar)
    ensures
        r == (if meaningful(margin) {
            margin
        } else {
            Scalar { bits: 0 }
        }),
{
    if margin.is_finite() && (Scalar { bits: 0 }).lt(margin) {
        margin
    } else {
        Scalar { bits: 0 }
    }
}

fn scale_for(b: Rect, opts: &FitOptions, margin: Scalar) -> (r: Scalar)
    requires
        margin == margin_of(*opts),
    ensures
        r == fit_scale(b, *opts),
{
    let one = Scalar { bits: ONE_BITS };
    let content_w = b.width().max(one);
    let content_h = b.height().max(one);
    let natural = room_for(opts.max_width, margin).div(content_w).min(
        room_for(opts.max_height, margin).div(content_h),
    );
    let natural = if natural.is_finite() {
        natural
    } else {
        one
    };
    let most = if opts.upscale {
        Scalar { bits: LARGEST_BITS }
    } else {
        one
    };
    natural.clamp(Scalar { bits: LEAST_SCALE_BITS }, most)
}

/// Fits the canvas to the content: scales the content by one factor, moves it to the margin and
/// sets the canvas size.
///
/// Returns whether the scene was adjusted. Content that is in place already is left as it is.
pub fn fit_scene(s: &mut Scene, opts: FitOptions, m: &SceneMeasure) -> (r: bool)
    ensures
        final(s).background == old(s).background,
        final(s).title == old(s).title,
        final(s).description == old(s).description,
        final(s).scale == old(s).scale,
        match fit_box(*old(s), *m) {
            None => {
                &&& final(s).nodes == old(s).nodes
                &&& final(s).layers == old(s).layers
                &&& r == opts.empty_size is Some
                &&& match opts.empty_size {
                    Some(size) => final(s).width == size.width && final(s).height == size.height,
                    None => final(s).width == old(s).width && final(s).height == old(s).height,
                }
            },
            Some(b) => {
                let scale = fit_scale(b, opts);
                let margin = margin_of(opts);
                &&& r
                &&& final(s).width == canvas_side(extent(b.x0, b.x1), scale, margin)
                &&& final(s).height == canvas_side(extent(b.y0, b.y1), scale, margin)
                &&& if in_place(b, opts) {
                    final(s).nodes == old(s).nodes && final(s).layers == old(s).layers
                } else {
                    let fit = fit_transform(b, opts);
                    &&& old(s).nodes@.len() == 0 ==> final(s).nodes == old(s).nodes
                    &&& old(s).nodes@.len() > 0 ==> final(s).nodes@ == seq![
                        SceneNode {
                            element: Element::Group { children: old(s).nodes },
                            z_index: 0,
                            transform: Some(fit),
                            opacity: Scalar { bits: ONE_BITS },
                            name: None,
                            visible: true,
                            clip: None,
                        },
                    ]
                    &&& final(s).layers@.len() == old(s).layers@.len()
                    &&& forall|i: int|
                        0 <= i < old(s).layers@.len() ==> #[trigger] final(s).layers@[i] == (Layer {
                            transform: Some(layer_fit(old(s).layers@[i].transform, fit)),
                            ..old(s).layers@[i]
                        })
                }
            },
        },
{
    let margin = clean_margin(opts.margin);
    let b = match scene_bounds(s, m) {
        Some(b) => b,
        None => {
            return set_empty_size(s, opts.empty_size);
        },
    };
    if !b.is_finite() {
        return set_empty_size(s, opts.empty_size);
    }
    let one = Scalar { bits: ONE_BITS };
    let two = Scalar { bits: TWO_BITS };
    let half = Scalar { bits: HALF_BITS };
    let scale = scale_for(b, &opts, margin);
    s.width = b.width().max(one).mul(scale).add(two.mul(margin));
    s.height = b.height().max(one).mul(scale).add(two.mul(margin));
    let dx = margin.sub(b.min_x().mul(scale));
    let dy = margin.sub(b.min_y().mul(scale));
    if dx.abs().lt(half) && dy.abs().lt(half) && scale.sub(one).abs().lt(
        Scalar { bits: NEAR_BITS },
    ) {
        return true;
    }
    let fit = Transform::compose(&Transform::translate(dx, dy), &Transform::scale(scale));
    assert(fit == fit_transform(b, opts));
    if s.nodes.len() > 0 {
        let mut children: Vec<SceneNode> = Vec::new();
        core::mem::swap(&mut children, &mut s.nodes);
        s.nodes.push(SceneNode::group(children).with_transform(fit));
    }
    move_layers(&mut s.layers, fit);
    true
}

fn set_empty_size(s: &mut Scene, size: Option<Size>) -> (r: bool)
    ensures
        r == size is Some,
        match size {
            Some(size) => *final(s) == (Scene {
                width: size.width,
                height: size.height,
                ..*old(s)
            }),
            None => *final(s) == *old(s),
        },
{
    match size {
        Some(size) => {
            s.width = size.width;
            s.height = size.height;
            true
        },
        None => false,
    }
}

fn move_layers(layers: &mut Vec<Layer>, fit: Transform)
    ensures
        final(layers)@.len() == old(layers)@.len(),
        forall|i: int|
            0 <= i < old(layers)@.len() ==> #[trigger] final(layers)@[i] == (Layer {
                transform: Some(layer_fit(old(layers)@[i].transform, fit)),
                ..old(layers)@[i]
            }),
{
    let ghost start = layers@;
    let len: usize = layers.len();
    let mut i: usize = 0;
    while i < len
        invariant
            i <= len,
            len == layers@.len(),
            len == start.len(),
            forall|j: int| i <= j < len ==> #[trigger] layers@[j] == start[j],
            forall|j: int|
                0 <= j < i ==> #[trigger] layers@[j] == (Layer {
                    transform: Some(layer_fit(start[j].transform, fit)),
                    ..start[j]
                }),
        decreases len - i,
    {
        let t = match layers[i].transform {
            Some(t) => Transform::compose(&fit, &t),
            None => fit,
        };
        layers[i].transform = Some(t);
        i += 1;
    }
}

/// Without leave to enlarge, content is never enlarged, and the scale is never below the
/// smallest normal number.
pub proof fn law_fit_never_enlarges(b: Rect, opts: FitOptions)
    requires
        !opts.upscale,
    ensures
        !(Scalar { bits: ONE_BITS }).less(fit_scale(b, opts)),
        !fit_scale(b, opts).less(Scalar { bits: LEAST_SCALE_BITS }),
        fit_scale(b, opts).finite(),
{
    lemma_scale_limits();
}

proof fn lemma_scale_limits()
    ensures
        !(Scalar { bits: ONE_BITS }).less(Scalar { bits: LEAST_SCALE_BITS }),
        (Scalar { bits: ONE_BITS }).finite(),
        (Scalar { bits: LEAST_SCALE_BITS }).finite(),
{
    let lo = Scalar { bits: LEAST_SCALE_BITS };
    let one = Scalar { bits: ONE_BITS };
    digits::lemma_two_pow_monotone(0, 1022);
    assert(one.scale() == 1022 && lo.scale() == 0);
    assert(one.significand() == lo.significand());
    let s = one.significand();
    let p = digits::two_pow(1022);
    assert(s * p >= s * digits::two_pow(0)) by (nonlinear_arith)
        requires
            p >= digits::two_pow(0),
            s >= 0,
    ;
}

/// `b` covers `r`, both being finite.
pub open spec fn covers(b: Rect, r: Rect) -> bool {
    &&& b.finite()
    &&& r.finite()
    &&& b.x0.units() <= r.x0.units()
    &&& b.y0.units() <= r.y0.units()
    &&& r.x1.units() <= b.x1.units()
    &&& r.y1.units() <= b.y1.units()
}

/// The box of two boxes covers both.
pub proof fn law_union_covers_both(a: Rect, b: Rect)
    requires
        a.finite(),
        b.finite(),
    ensures
        covers(a.joined(b), a),
        covers(a.joined(b), b),
{
}

/// Room for a stroke is never taken from the shape: the padded box covers the box, as far as it
/// stays finite.
pub proof fn law_outset_covers(r: Rect, stroke: Option<Stroke>)
    requires
        r.finite(),
        outset(r, stroke).finite(),
    ensures
        covers(outset(r, stroke), r),
{
    if let Some(pad) = inset(stroke) {
        let w = stroke->0.width;
        lemma_half_is_positive(w);
        if pad.finite() {
            laws::law_adding_does_not_shrink(r.x0, pad);
            laws::law_adding_does_not_shrink(r.y0, pad);
            laws::law_adding_does_not_shrink(r.x1, pad);
            laws::law_adding_does_not_shrink(r.y1, pad);
        } else {
            lemma_infinite_pad(r.x1, pad);
        }
    }
}

proof fn lemma_half_is_positive(w: Scalar)
    requires
        w.finite(),
        (Scalar { bits: 0 }).less(w),
    ensures
        !w.quotient(Scalar { bits: TWO_BITS }).nan(),
        w.quotient(Scalar { bits: TWO_BITS }).units() >= 0,
        w.quotient(Scalar { bits: TWO_BITS }).finite() || w.quotient(
            Scalar { bits: TWO_BITS },
        ).infinite(),
{
    reveal(Scalar::quotient);
    let two = Scalar { bits: TWO_BITS };
    scalar::lemma_zero(w);
    scalar::lemma_zero(Scalar { bits: 0 });
    assert(two.magnitude() == TWO_BITS && !two.negative() && two.finite());
    let u = w.abs_units() * digits::two_pow(1074);
    arith::lemma_nearest_range(u, two.abs_units());
    assert(!w.negative());
}

proof fn lemma_infinite_pad(a: Scalar, pad: Scalar)
    requires
        a.finite(),
        pad.infinite(),
    ensures
        !a.sum(pad).finite(),
{
    reveal(Scalar::sum);
}

pub proof fn lemma_points_finite(points: Seq<Point>)
    ensures
        finite_points(points) matches Some(r) ==> r.finite(),
    decreases points.len(),
{
    if points.len() > 0 {
        lemma_points_finite(points.drop_last());
    }
}

proof fn lemma_node_finite(node: SceneNode, m: Facts, ms: Seq<Measure>)
    ensures
        node_rect(node, m, ms) matches Some(r) ==> r.finite(),
{
    if let Some(t) = node.transform {
        if let Some(r) = element_rect(node.element, m, ms) {
            let origin = Point { x: Scalar { bits: 0 }, y: Scalar { bits: 0 } };
            lemma_points_finite(moved_corners(t, r, origin));
        }
    }
}

/// The box of nodes covers the box of each of them: it is never too small.
pub proof fn law_bounds_cover_each_node(nodes: Seq<SceneNode>, ms: Seq<Measure>, n: nat, i: int)
    requires
        0 <= i < n <= nodes.len(),
    ensures
        match (node_rect(nodes[i], facts_at(ms, i), below(ms, i)), nodes_rect(nodes, ms, n)) {
            (Some(r), Some(b)) => covers(b, r),
            (Some(_), None) => false,
            (None, _) => true,
        },
        nodes_rect(nodes, ms, n) matches Some(b) ==> b.finite(),
    decreases n,
{
    let k = n - 1;
    let last = node_rect(nodes[k], facts_at(ms, k), below(ms, k));
    let rest = nodes_rect(nodes, ms, k as nat);
    lemma_node_finite(nodes[k], facts_at(ms, k), below(ms, k));
    assert(nodes_rect(nodes, ms, n) == merged(rest, last));
    if k > 0 {
        if i < k {
            law_bounds_cover_each_node(nodes, ms, k as nat, i);
            lemma_merged_covers(
                node_rect(nodes[i], facts_at(ms, i), below(ms, i)),
                rest,
                last,
            );
        } else {
            law_bounds_cover_each_node(nodes, ms, k as nat, 0);
            lemma_merged_covers(None, rest, last);
        }
    } else {
        assert(rest is None);
        lemma_merged_covers(None, rest, last);
    }
}

/// What one of two boxes covers, and the other box itself, are covered by the box of both.
proof fn lemma_merged_covers(r: Option<Rect>, a: Option<Rect>, b: Option<Rect>)
    requires
        a matches Some(x) ==> x.finite(),
        b matches Some(x) ==> x.finite(),
        r matches Some(x) ==> (a matches Some(y) && covers(y, x)),
    ensures
        r matches Some(x) ==> (merged(a, b) matches Some(y) && covers(y, x)),
        b matches Some(x) ==> (merged(a, b) matches Some(y) && covers(y, x)),
        merged(a, b) matches Some(y) ==> y.finite(),
{
}

/// A product of numbers that are not negative is not negative, and is a number.
proof fn lemma_product_sign(a: Scalar, b: Scalar)
    requires
        a.finite() || a.infinite(),
        b.finite(),
        !a.negative(),
        !b.negative(),
        a.infinite() ==> b.magnitude() != 0,
    ensures
        !a.product(b).nan(),
        !a.product(b).negative(),
        a.product(b).finite() || a.product(b).infinite(),
{
    reveal(Scalar::product);
    if a.finite() {
        arith::lemma_nearest_range(a.abs_units() * b.abs_units(), digits::two_pow(1074));
    }
}

/// At least 1 times a positive number is at least that number.
proof fn lemma_scaled_up(a: Scalar, b: Scalar)
    requires
        a.finite(),
        !a.negative(),
        a.units() >= (Scalar { bits: ONE_BITS }).units(),
        b.finite(),
        !b.negative(),
    ensures
        a.product(b).magnitude() >= b.magnitude(),
{
    reveal(Scalar::product);
    laws::lemma_one();
    let u = digits::two_pow(1074);
    digits::lemma_two_pow_positive(1074);
    laws::law_rounding_keeps_numbers(b, u);
    let n = a.abs_units() * b.abs_units();
    assert((b.abs_units() * u) * u <= n * u) by (nonlinear_arith)
        requires
            n == a.abs_units() * b.abs_units(),
            a.abs_units() >= u,
            u > 0,
            b.abs_units() >= 0,
    ;
    laws::law_rounding_is_monotone(b.abs_units() * u, u, n, u);
    arith::lemma_nearest_range(n, u);
}

/// An extent is at least 1.
proof fn lemma_extent(lo: Scalar, hi: Scalar)
    ensures
        extent(lo, hi).finite() || extent(lo, hi).infinite(),
        !extent(lo, hi).negative(),
        extent(lo, hi).units() >= (Scalar { bits: ONE_BITS }).units(),
{
    let one = Scalar { bits: ONE_BITS };
    let e = extent(lo, hi);
    laws::lemma_one();
    digits::lemma_two_pow_positive(1074);
    scalar::lemma_zero(e);
    assert(!e.nan() && e.units() >= one.units());
}

/// An extent times a positive number is positive.
proof fn lemma_scaled_extent(e: Scalar, s: Scalar)
    requires
        e.finite() || e.infinite(),
        !e.negative(),
        e.units() >= (Scalar { bits: ONE_BITS }).units(),
        s.finite(),
        !s.negative(),
        s.magnitude() > 0,
    ensures
        e.product(s).finite() || e.product(s).infinite(),
        !e.product(s).negative(),
        e.product(s).magnitude() > 0,
{
    lemma_product_sign(e, s);
    if e.finite() {
        lemma_scaled_up(e, s);
    } else {
        reveal(Scalar::product);
    }
}

/// A positive number plus one that is not negative is positive.
proof fn lemma_positive_sum(p: Scalar, q: Scalar)
    requires
        p.finite() || p.infinite(),
        !p.negative(),
        p.magnitude() > 0,
        q.finite() || q.infinite(),
        !q.negative(),
    ensures
        (Scalar { bits: 0 }).less(p.sum(q)),
{
    scalar::lemma_zero(Scalar { bits: 0 });
    scalar::lemma_zero(p);
    scalar::lemma_zero(q);
    if p.finite() && q.finite() {
        laws::law_adding_does_not_shrink(p, q);
    } else {
        reveal(Scalar::sum);
    }
}

/// The sides of a fitted canvas are positive, however small the limits and however large the
/// margin.
pub proof fn law_canvas_is_positive(lo: Scalar, hi: Scalar, b: Rect, opts: FitOptions)
    ensures
        (Scalar { bits: 0 }).less(
            canvas_side(extent(lo, hi), fit_scale(b, opts), margin_of(opts)),
        ),
{
    let two = Scalar { bits: TWO_BITS };
    let e = extent(lo, hi);
    let s = fit_scale(b, opts);
    let m = margin_of(opts);
    lemma_scale_is_positive(b, opts);
    lemma_extent(lo, hi);
    lemma_scaled_extent(e, s);
    assert(m.finite() && !m.negative()) by {
        scalar::lemma_zero(Scalar { bits: 0 });
        scalar::lemma_zero(m);
    }
    lemma_product_sign(two, m);
    lemma_positive_sum(e.product(s), two.product(m));
}

proof fn lemma_scale_is_positive(b: Rect, opts: FitOptions)
    ensures
        fit_scale(b, opts).finite(),
        !fit_scale(b, opts).negative(),
        fit_scale(b, opts).magnitude() > 0,
{
    lemma_scale_limits();
    let s = fit_scale(b, opts);
    let lo = Scalar { bits: LEAST_SCALE_BITS };
    let top = Scalar { bits: LARGEST_BITS };
    scalar::lemma_zero(s);
    scalar::lemma_zero(lo);
    assert(top.finite() && !top.negative());
    laws::lemma_order(lo, top);
    assert(natural_scale(b, opts).finite());
    assert(!s.less(lo));
}

/// A hidden node takes no space.
pub proof fn law_hidden_nodes_take_no_space(node: SceneNode, m: Facts, ms: Seq<Measure>)
    requires
        !node.visible,
    ensures
        node_rect(node, m, ms) is None,
{
}

/// The shift that moves a scaled edge to the margin needs no rounding.
pub open spec fn exact_shift(edge: Scalar, scale: Scalar, margin: Scalar) -> bool {
    let p = edge.product(scale);
    let s = shift_of(edge, scale, margin);
    p.finite() && s.finite() && s.units() == margin.units() - p.units()
}

/// A scaled and shifted coordinate, where the shift is exact.
proof fn lemma_lands(p: Scalar, z: Scalar, shift: Scalar, w: Scalar, margin: Scalar)
    requires
        p.finite(),
        z.magnitude() == 0,
        w.magnitude() == 0,
        shift.finite(),
        margin.finite(),
        shift.units() == margin.units() - p.units(),
    ensures
        p.sum(z).sum(w.sum(shift)).units() == margin.units(),
        z.sum(p).sum(w.sum(shift)).units() == margin.units(),
{
    laws::lemma_plus_zero(p, z);
    laws::lemma_plus_zero(shift, w);
    laws::law_exact_sums_are_kept(p.sum(z), w.sum(shift), margin);
    laws::law_exact_sums_are_kept(z.sum(p), w.sum(shift), margin);
}

/// The matrix of a scale and a shift.
proof fn lemma_matrix(k: Scalar, dx: Scalar, dy: Scalar)
    requires
        k.finite(),
        k.magnitude() > 0,
    ensures
        ({
            let t = scaled_and_shifted(k, dx, dy);
            &&& t.a == k
            &&& t.b.magnitude() == 0
            &&& t.c.magnitude() == 0
            &&& t.d == k
            &&& exists|w: Scalar| w.magnitude() == 0 && t.e == #[trigger] w.sum(dx)
            &&& exists|w: Scalar| w.magnitude() == 0 && t.f == #[trigger] w.sum(dy)
        }),
{
    let zero = Scalar { bits: 0 };
    let one = Scalar { bits: ONE_BITS };
    let t = scaled_and_shifted(k, dx, dy);
    laws::lemma_one();
    laws::law_one_is_neutral(k);
    laws::law_zero_absorbs(k, zero);
    laws::law_zero_absorbs(one, zero);
    laws::law_zero_absorbs(zero, zero);
    laws::law_zero_is_neutral(k, zero.product(zero));
    laws::law_zero_is_neutral(zero.product(k), one.product(zero));
    laws::law_zero_is_neutral(one.product(zero), zero.product(k));
    laws::law_zero_is_neutral(one.product(zero), zero.product(zero));
    laws::law_zero_is_neutral(zero.product(zero), one.product(zero));
    assert(t.e == one.product(zero).sum(zero.product(zero)).sum(dx));
    assert(t.f == zero.product(zero).sum(one.product(zero)).sum(dy));
}

/// A point whose scaled coordinates are shifted exactly lands on the margin.
proof fn lemma_point_lands(k: Scalar, p: Point, dx: Scalar, dy: Scalar, margin: Scalar)
    requires
        k.finite(),
        k.magnitude() > 0,
        p.finite(),
        margin.finite(),
        dx.finite(),
        dy.finite(),
        p.x.product(k).finite(),
        p.y.product(k).finite(),
        dx.units() == margin.units() - p.x.product(k).units(),
        dy.units() == margin.units() - p.y.product(k).units(),
    ensures
        scaled_and_shifted(k, dx, dy).image(p).x.units() == margin.units(),
        scaled_and_shifted(k, dx, dy).image(p).y.units() == margin.units(),
{
    let t = scaled_and_shifted(k, dx, dy);
    lemma_matrix(k, dx, dy);
    let v = choose|w: Scalar| w.magnitude() == 0 && t.e == #[trigger] w.sum(dx);
    let w = choose|w: Scalar| w.magnitude() == 0 && t.f == #[trigger] w.sum(dy);
    laws::law_zero_absorbs(p.y, t.c);
    laws::law_zero_absorbs(p.x, t.b);
    laws::law_product_commutes(k, p.x);
    laws::law_product_commutes(k, p.y);
    lemma_lands(p.x.product(k), t.c.product(p.y), dx, v, margin);
    lemma_lands(p.y.product(k), t.b.product(p.x), dy, w, margin);
}

/// A fit moves the corner of the content to the margin, wherever the shift needs no rounding.
pub proof fn law_fit_moves_content_to_the_margin(b: Rect, opts: FitOptions)
    requires
        b.finite(),
        ({
            let o = b.ordered();
            let m = margin_of(opts);
            let k = fit_scale(b, opts);
            exact_shift(o.x0, k, m) && exact_shift(o.y0, k, m)
        }),
    ensures
        ({
            let o = b.ordered();
            let p = fit_transform(b, opts).image(Point { x: o.x0, y: o.y0 });
            &&& p.x.units() == margin_of(opts).units()
            &&& p.y.units() == margin_of(opts).units()
        }),
{
    let o = b.ordered();
    let m = margin_of(opts);
    let k = fit_scale(b, opts);
    let dx = shift_of(o.x0, k, m);
    let dy = shift_of(o.y0, k, m);
    lemma_scale_is_positive(b, opts);
    lemma_point_lands(k, Point { x: o.x0, y: o.y0 }, dx, dy, m);
}

/// Without a margin the shift of a fit needs no rounding.
pub proof fn law_shift_without_margin_is_exact(edge: Scalar, scale: Scalar)
    requires
        edge.product(scale).finite(),
    ensures
        exact_shift(edge, scale, Scalar { bits: 0 }),
{
    let p = edge.product(scale);
    let zero = Scalar { bits: 0 };
    scalar::lemma_zero(zero);
    assert(p.negated().abs_units() == p.abs_units() && p.negated().finite());
    scalar::lemma_zero(p);
    laws::law_exact_sums_are_kept(zero, p.negated(), p.negated());
}

} // verus!
