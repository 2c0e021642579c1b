//! SVG markup of shapes.

use vstd::prelude::*;
use crate::geometry::{Point, Rect, Vec2, TWO_BITS};
use crate::path::{BezPath, PathEl};
use crate::digits;
use crate::render::markup;
use crate::render::{Op, RenderOp};
use crate::scalar::Scalar;
use crate::scene::{Clip, Element};

verus! {

/// The bit pattern of the sweep, a little below a full turn, from which an arc is drawn in two
/// halves.
pub const FULL_TURN_BITS: u64 = 0x4019_21fb_5432_ff0c;

/// The bit pattern of half a turn.
pub const HALF_TURN_BITS: u64 = 0x4009_21fb_5444_2d18;

/// The sweep covers the full ellipse.
pub open spec fn full_turn(sweep: Scalar) -> bool {
    !sweep.nan() && !sweep.absolute().less(Scalar { bits: FULL_TURN_BITS })
}

/// The sweeps of the segments of an arc: a full turn is drawn in two halves, for a segment that
/// ends where it starts is not drawn.
pub open spec fn arc_sweeps(sweep: Scalar) -> Seq<Scalar> {
    if full_turn(sweep) {
        let half = sweep.quotient(Scalar { bits: TWO_BITS });
        seq![half, half]
    } else {
        seq![sweep]
    }
}

/// The angles at which the segments of an arc start and end.
pub open spec fn arc_stops(start: Scalar, sweep: Scalar) -> Seq<Scalar> {
    if full_turn(sweep) {
        let half = sweep.quotient(Scalar { bits: TWO_BITS });
        seq![start, start.sum(half), start.sum(half).sum(half)]
    } else {
        seq![start, start.sum(sweep)]
    }
}

/// The angles whose directions [`arc_path_d`] takes.
pub fn arc_angles(start: Scalar, sweep: Scalar) -> (angles: Vec<Scalar>)
    ensures
        angles@ == arc_stops(start, sweep),
{
    let mut angles: Vec<Scalar> = Vec::new();
    angles.push(start);
    if !sweep.is_nan() && !sweep.abs().lt(Scalar { bits: FULL_TURN_BITS }) {
        let half = sweep.div(Scalar { bits: TWO_BITS });
        let middle = start.add(half);
        angles.push(middle);
        angles.push(middle.add(half));
    } else {
        angles.push(start.add(sweep));
    }
    assert(angles@ =~= arc_stops(start, sweep));
    angles
}

/// The point of an ellipse in a direction.
pub open spec fn on_ellipse(center: Point, radii: Vec2, direction: Vec2) -> Point {
    Point {
        x: center.x.sum(radii.x.product(direction.x)),
        y: center.y.sum(radii.y.product(direction.y)),
    }
}

fn ellipse_point(center: Point, radii: Vec2, direction: Vec2) -> (p: Point)
    ensures
        p == on_ellipse(center, radii, direction),
{
    Point {
        x: center.x.add(radii.x.mul(direction.x)),
        y: center.y.add(radii.y.mul(direction.y)),
    }
}

pub open spec fn flag(b: bool) -> Seq<char> {
    if b {
        "1"@
    } else {
        "0"@
    }
}

fn flag_text(b: bool) -> (s: &'static str)
    ensures
        s@ == flag(b),
{
    if b {
        "1"
    } else {
        "0"
    }
}

/// One segment of an arc, with its large-arc flag and its sweep flag.
pub open spec fn arc_segment(radii: Vec2, sweep: Scalar, end: Point) -> Seq<char> {
    " A "@ + radii.x.fixed(2) + " "@ + radii.y.fixed(2) + " 0 "@
        + flag(Scalar { bits: HALF_TURN_BITS }.less(sweep.absolute())) + " "@
        + flag(!sweep.nan() && !sweep.less(Scalar { bits: 0 })) + " "@ + end.x.fixed(2) + " "@
        + end.y.fixed(2)
}

fn arc_segment_svg(radii: Vec2, sweep: Scalar, end: Point) -> (d: String)
    ensures
        d@ == arc_segment(radii, sweep, end),
{
    let large = (Scalar { bits: HALF_TURN_BITS }).lt(sweep.abs());
    let clockwise = !sweep.is_nan() && !sweep.lt(Scalar { bits: 0 });
    let mut d = markup::text(" A ");
    radii.x.push_fixed(&mut d, 2);
    d.append(" ");
    radii.y.push_fixed(&mut d, 2);
    d.append(" 0 ");
    d.append(flag_text(large));
    d.append(" ");
    d.append(flag_text(clockwise));
    d.append(" ");
    end.x.push_fixed(&mut d, 2);
    d.append(" ");
    end.y.push_fixed(&mut d, 2);
    d
}

/// Where an arc starts; a sector starts at its center.
pub open spec fn arc_start(center: Point, start: Point, sector: bool) -> Seq<char> {
    if sector {
        "M "@ + center.x.fixed(2) + " "@ + center.y.fixed(2) + " L "@ + start.x.fixed(2) + " "@
            + start.y.fixed(2)
    } else {
        "M "@ + start.x.fixed(2) + " "@ + start.y.fixed(2)
    }
}

/// The path of an arc or a sector, given the directions of its angles.
pub open spec fn arc_path(
    center: Point,
    radii: Vec2,
    sweep: Scalar,
    sector: bool,
    directions: Seq<Vec2>,
) -> Seq<char> {
    let sweeps = arc_sweeps(sweep);
    let head = arc_start(center, on_ellipse(center, radii, directions[0]), sector)
        + arc_segment(radii, sweeps[0], on_ellipse(center, radii, directions[1]));
    let body = if sweeps.len() == 2 {
        head + arc_segment(radii, sweeps[1], on_ellipse(center, radii, directions[2]))
    } else {
        head
    };
    if sector {
        body + " Z"@
    } else {
        body
    }
}

/// The path of an arc or a sector; `directions` are the cosines and sines of [`arc_angles`].
pub fn arc_path_d(
    center: Point,
    radii: Vec2,
    sweep: Scalar,
    sector: bool,
    directions: &Vec<Vec2>,
) -> (d: String)
    requires
        directions@.len() == arc_sweeps(sweep).len() + 1,
    ensures
        d@ == arc_path(center, radii, sweep, sector, directions@),
{
    let start = ellipse_point(center, radii, directions[0]);
    let full = !sweep.is_nan() && !sweep.abs().lt(Scalar { bits: FULL_TURN_BITS });
    let mut d = if sector {
        let mut d = markup::text("M ");
        center.x.push_fixed(&mut d, 2);
        d.append(" ");
        center.y.push_fixed(&mut d, 2);
        d.append(" L ");
        start.x.push_fixed(&mut d, 2);
        d.append(" ");
        start.y.push_fixed(&mut d, 2);
        d
    } else {
        let mut d = markup::text("M ");
        start.x.push_fixed(&mut d, 2);
        d.append(" ");
        start.y.push_fixed(&mut d, 2);
        d
    };
    let s = if full {
        sweep.div(Scalar { bits: TWO_BITS })
    } else {
        sweep
    };
    d.append(arc_segment_svg(radii, s, ellipse_point(center, radii, directions[1])).as_str());
    if full {
        d.append(arc_segment_svg(radii, s, ellipse_point(center, radii, directions[2])).as_str());
    }
    if sector {
        d.append(" Z");
    }
    d
}

/// Opens a rectangle.
pub open spec fn rect_head(rect: Rect) -> Seq<char> {
    "<rect x=\""@ + rect.ordered().x0.fixed(2) + "\" y=\""@ + rect.ordered().y0.fixed(2)
        + "\" width=\""@ + rect.x1.difference(rect.x0).fixed(2) + "\" height=\""@
        + rect.y1.difference(rect.y0).fixed(2) + "\" "@
}

pub fn rect_open(rect: Rect) -> (el: String)
    ensures
        el@ == rect_head(rect),
{
    let mut el = markup::text("<rect x=\"");
    rect.min_x().push_fixed(&mut el, 2);
    el.append("\" y=\"");
    rect.min_y().push_fixed(&mut el, 2);
    el.append("\" width=\"");
    rect.width().push_fixed(&mut el, 2);
    el.append("\" height=\"");
    rect.height().push_fixed(&mut el, 2);
    el.append("\" ");
    el
}

/// Opens a circle.
pub open spec fn circle_head(center: Point, radius: Scalar) -> Seq<char> {
    "<circle cx=\""@ + center.x.fixed(2) + "\" cy=\""@ + center.y.fixed(2) + "\" r=\""@
        + radius.fixed(2) + "\" "@
}

pub fn circle_open(center: Point, radius: Scalar) -> (el: String)
    ensures
        el@ == circle_head(center, radius),
{
    let mut el = markup::text("<circle cx=\"");
    center.x.push_fixed(&mut el, 2);
    el.append("\" cy=\"");
    center.y.push_fixed(&mut el, 2);
    el.append("\" r=\"");
    radius.push_fixed(&mut el, 2);
    el.append("\" ");
    el
}

/// Opens an ellipse, up to its turn.
pub open spec fn ellipse_frame_head(center: Point, radii: Vec2) -> Seq<char> {
    "<ellipse cx=\""@ + center.x.fixed(2) + "\" cy=\""@ + center.y.fixed(2) + "\" rx=\""@
        + radii.x.fixed(2) + "\" ry=\""@ + radii.y.fixed(2) + "\" "@
}

fn ellipse_frame_open(center: Point, radii: Vec2) -> (el: String)
    ensures
        el@ == ellipse_frame_head(center, radii),
{
    let mut el = markup::text("<ellipse cx=\"");
    center.x.push_fixed(&mut el, 2);
    el.append("\" cy=\"");
    center.y.push_fixed(&mut el, 2);
    el.append("\" rx=\"");
    radii.x.push_fixed(&mut el, 2);
    el.append("\" ry=\"");
    radii.y.push_fixed(&mut el, 2);
    el.append("\" ");
    el
}

/// Opens a rounded rectangle; its size is not negative.
pub open spec fn rounded_rect_head(rect: Rect, radius: Scalar) -> Seq<char> {
    "<rect x=\""@ + rect.ordered().x0.least(rect.ordered().x1).fixed(2) + "\" y=\""@
        + rect.ordered().y0.least(rect.ordered().y1).fixed(2) + "\" width=\""@
        + rect.ordered().x1.difference(rect.ordered().x0).absolute().fixed(2) + "\" height=\""@
        + rect.ordered().y1.difference(rect.ordered().y0).absolute().fixed(2) + "\" rx=\""@
        + radius.fixed(2) + "\" "@
}

pub fn rounded_rect_open(rect: Rect, radius: Scalar) -> (el: String)
    ensures
        el@ == rounded_rect_head(rect, radius),
{
    let mut el = markup::text("<rect x=\"");
    rect.min_x().min(rect.max_x()).push_fixed(&mut el, 2);
    el.append("\" y=\"");
    rect.min_y().min(rect.max_y()).push_fixed(&mut el, 2);
    el.append("\" width=\"");
    rect.max_x().sub(rect.min_x()).abs().push_fixed(&mut el, 2);
    el.append("\" height=\"");
    rect.max_y().sub(rect.min_y()).abs().push_fixed(&mut el, 2);
    el.append("\" rx=\"");
    radius.push_fixed(&mut el, 2);
    el.append("\" ");
    el
}

/// Opens a line.
pub open spec fn line_head(start: Point, end: Point) -> Seq<char> {
    "<line x1=\""@ + start.x.fixed(2) + "\" y1=\""@ + start.y.fixed(2) + "\" x2=\""@
        + end.x.fixed(2) + "\" y2=\""@ + end.y.fixed(2) + "\" "@
}

pub fn line_open(start: Point, end: Point) -> (el: String)
    ensures
        el@ == line_head(start, end),
{
    let mut el = markup::text("<line x1=\"");
    start.x.push_fixed(&mut el, 2);
    el.append("\" y1=\"");
    start.y.push_fixed(&mut el, 2);
    el.append("\" x2=\"");
    end.x.push_fixed(&mut el, 2);
    el.append("\" y2=\"");
    end.y.push_fixed(&mut el, 2);
    el.append("\" ");
    el
}

/// Opens an ellipse.
pub open spec fn ellipse_head(center: Point, radii: Vec2, rotation: Scalar) -> Seq<char> {
    if rotation.same(Scalar { bits: 0 }) {
        ellipse_frame_head(center, radii)
    } else {
        ellipse_frame_head(center, radii) + markup::rotation(rotation, center) + " "@
    }
}

pub fn ellipse_open(center: Point, radii: Vec2, rotation: Scalar) -> (el: String)
    ensures
        el@ == ellipse_head(center, radii, rotation),
{
    let mut el = ellipse_frame_open(center, radii);
    if !rotation.same_value(Scalar { bits: 0 }) {
        el.append(markup::rotation_svg(rotation, center).as_str());
        el.append(" ");
    }
    el
}

/// Opens an element with a quoted list or path.
pub open spec fn data_head(lead: Seq<char>, data: Seq<char>) -> Seq<char> {
    lead + data + "\" "@
}

pub fn data_open(lead: &str, data: &str) -> (el: String)
    ensures
        el@ == data_head(lead@, data@),
{
    let mut el = markup::text(lead);
    el.append(data);
    el.append("\" ");
    el
}

/// A rectangle that clips.
pub open spec fn clip_rect_markup(rect: Rect) -> Seq<char> {
    "<rect x=\""@ + rect.ordered().x0.fixed(2) + "\" y=\""@ + rect.ordered().y0.fixed(2)
        + "\" width=\""@ + rect.x1.difference(rect.x0).fixed(2) + "\" height=\""@
        + rect.y1.difference(rect.y0).fixed(2) + "\"/>"@
}

fn clip_rect_svg(rect: Rect) -> (r: String)
    ensures
        r@ == clip_rect_markup(rect),
{
    let mut r = markup::text("<rect x=\"");
    rect.min_x().push_fixed(&mut r, 2);
    r.append("\" y=\"");
    rect.min_y().push_fixed(&mut r, 2);
    r.append("\" width=\"");
    rect.width().push_fixed(&mut r, 2);
    r.append("\" height=\"");
    rect.height().push_fixed(&mut r, 2);
    r.append("\"/>");
    r
}

/// A rounded rectangle that clips.
pub open spec fn clip_rounded_markup(rect: Rect, radius: Scalar) -> Seq<char> {
    "<rect x=\""@ + rect.ordered().x0.fixed(2) + "\" y=\""@ + rect.ordered().y0.fixed(2)
        + "\" width=\""@ + rect.x1.difference(rect.x0).fixed(2) + "\" height=\""@
        + rect.y1.difference(rect.y0).fixed(2) + "\" rx=\""@ + radius.fixed(2) + "\"/>"@
}

fn clip_rounded_svg(rect: Rect, radius: Scalar) -> (r: String)
    ensures
        r@ == clip_rounded_markup(rect, radius),
{
    let mut r = markup::text("<rect x=\"");
    rect.min_x().push_fixed(&mut r, 2);
    r.append("\" y=\"");
    rect.min_y().push_fixed(&mut r, 2);
    r.append("\" width=\"");
    rect.width().push_fixed(&mut r, 2);
    r.append("\" height=\"");
    rect.height().push_fixed(&mut r, 2);
    r.append("\" rx=\"");
    radius.push_fixed(&mut r, 2);
    r.append("\"/>");
    r
}

/// A circle that clips.
pub open spec fn clip_circle_markup(center: Point, radius: Scalar) -> Seq<char> {
    "<circle cx=\""@ + center.x.fixed(2) + "\" cy=\""@ + center.y.fixed(2) + "\" r=\""@
        + radius.fixed(2) + "\"/>"@
}

fn clip_circle_svg(center: Point, radius: Scalar) -> (r: String)
    ensures
        r@ == clip_circle_markup(center, radius),
{
    let mut r = markup::text("<circle cx=\"");
    center.x.push_fixed(&mut r, 2);
    r.append("\" cy=\"");
    center.y.push_fixed(&mut r, 2);
    r.append("\" r=\"");
    radius.push_fixed(&mut r, 2);
    r.append("\"/>");
    r
}

/// An ellipse that clips.
pub open spec fn clip_ellipse_markup(center: Point, radii: Vec2, rotation: Scalar) -> Seq<char> {
    let frame = "<ellipse cx=\""@ + center.x.fixed(2) + "\" cy=\""@ + center.y.fixed(2)
        + "\" rx=\""@ + radii.x.fixed(2) + "\" ry=\""@ + radii.y.fixed(2) + "\""@;
    if rotation.same(Scalar { bits: 0 }) {
        frame + " />"@
    } else {
        frame + " "@ + markup::rotation(rotation, center) + " />"@
    }
}

fn clip_ellipse_svg(center: Point, radii: Vec2, rotation: Scalar) -> (r: String)
    ensures
        r@ == clip_ellipse_markup(center, radii, rotation),
{
    let mut r = markup::text("<ellipse cx=\"");
    center.x.push_fixed(&mut r, 2);
    r.append("\" cy=\"");
    center.y.push_fixed(&mut r, 2);
    r.append("\" rx=\"");
    radii.x.push_fixed(&mut r, 2);
    r.append("\" ry=\"");
    radii.y.push_fixed(&mut r, 2);
    r.append("\"");
    if !rotation.same_value(Scalar { bits: 0 }) {
        r.append(" ");
        r.append(markup::rotation_svg(rotation, center).as_str());
    }
    r.append(" />");
    r
}

/// The element inside a clip path; `data` is the path data of a path.
pub open spec fn clip_shape(clip: Clip, data: Seq<char>) -> Seq<char> {
    match clip {
        Clip::Rect(rect) => clip_rect_markup(rect),
        Clip::RoundedRect { rect, radius } => clip_rounded_markup(rect, radius),
        Clip::Circle { center, radius } => clip_circle_markup(center, radius),
        Clip::Ellipse { center, radii, rotation } => clip_ellipse_markup(center, radii, rotation),
        Clip::Path(_) => "<path d=\""@ + data + "\"/>"@,
    }
}

pub fn clip_shape_svg(clip: &Clip, data: &str) -> (r: String)
    ensures
        r@ == clip_shape(*clip, data@),
{
    match clip {
        Clip::Rect(rect) => clip_rect_svg(*rect),
        Clip::RoundedRect { rect, radius } => clip_rounded_svg(*rect, *radius),
        Clip::Circle { center, radius } => clip_circle_svg(*center, *radius),
        Clip::Ellipse { center, radii, rotation } => clip_ellipse_svg(*center, *radii, *rotation),
        Clip::Path(_) => {
            let mut r = markup::text("<path d=\"");
            r.append(data);
            r.append("\"/>");
            r
        },
    }
}

/// Defines a clip path and opens a group that it clips.
pub open spec fn clip_markup(id: nat, clip: Clip, data: Seq<char>) -> Seq<char> {
    "<defs><clipPath id=\"clip"@ + digits::decimal(id) + "\">"@ + clip_shape(clip, data)
        + "</clipPath></defs><g clip-path=\"url(#clip"@ + digits::decimal(id) + ")\">"@
}

/// What an operation needs that is computed outside: of a path its data, of an arc the cosine
/// and the sine of each of its angles.
#[derive(Debug)]
pub struct Outline {
    pub data: String,
    pub directions: Vec<Vec2>,
}

/// The path whose data an operation takes.
pub open spec fn op_path(op: Op) -> Option<Seq<PathEl>> {
    match op {
        Op::PushClip(Clip::Path(path)) => Some(path@),
        Op::Draw(Element::Path { path, style, closed }) => Some(
            if closed {
                path@.push(PathEl::ClosePath)
            } else {
                path@
            },
        ),
        Op::Draw(Element::GradientPath { path, gradient, stroke }) => Some(
            path@.push(PathEl::ClosePath),
        ),
        _ => None,
    }
}

/// The angles whose directions an operation takes.
pub open spec fn op_angles(op: Op) -> Seq<Scalar> {
    match op {
        Op::Draw(Element::Arc { center, radii, start_angle, sweep_angle, style }) => arc_stops(
            start_angle,
            sweep_angle,
        ),
        Op::Draw(Element::Pie { center, radius, start_angle, sweep_angle, style }) => arc_stops(
            start_angle,
            sweep_angle,
        ),
        _ => Seq::empty(),
    }
}

/// The value of an optional path.
pub open spec fn path_view(p: Option<BezPath>) -> Option<Seq<PathEl>> {
    match p {
        Some(p) => Some(p@),
        None => None,
    }
}

impl<'a> RenderOp<'a> {
    /// The path whose data the operation takes.
    pub fn path(&self) -> (r: Option<BezPath>)
        ensures
            path_view(r) == op_path(self@),
    {
        match self {
            RenderOp::PushClip(Clip::Path(path)) => Some(path.clone()),
            RenderOp::Draw(Element::Path { path, closed, .. }) => {
                let mut p = path.clone();
                if *closed {
                    p.push(PathEl::ClosePath);
                }
                Some(p)
            },
            RenderOp::Draw(Element::GradientPath { path, .. }) => {
                let mut p = path.clone();
                p.push(PathEl::ClosePath);
                Some(p)
            },
            _ => None,
        }
    }

    /// The angles whose directions the operation takes.
    pub fn angles(&self) -> (r: Vec<Scalar>)
        ensures
            r@ == op_angles(self@),
    {
        match self {
            RenderOp::Draw(Element::Arc { start_angle, sweep_angle, .. }) => arc_angles(
                *start_angle,
                *sweep_angle,
            ),
            RenderOp::Draw(Element::Pie { start_angle, sweep_angle, .. }) => arc_angles(
                *start_angle,
                *sweep_angle,
            ),
            _ => {
                let none: Vec<Scalar> = Vec::new();
                assert(none@ =~= Seq::<Scalar>::empty());
                none
            },
        }
    }
}

} // verus!
