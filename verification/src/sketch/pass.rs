//! From an element to its hand-drawn form.
//!
//! A filled shape with a stroke becomes two elements: the shape itself with a hand-drawn fill
//! and no stroke, and above it a path with jitter, stroked as the shape was.
//!
//! A plan says what is drawn and which line the pen follows; the line is sampled outside, and
//! the plan is then carried out.

use vstd::prelude::*;
use crate::copy::copied;
use crate::fit;
use crate::fit::{FitOptions, Measure};
use crate::geometry::{Color, Point, Rect, Vec2};
use crate::path::{BezPath, PathEl};
use crate::scalar::{Scalar, ONE_BITS};
use crate::scene::{Element, Layer, Scene, SceneNode};
use crate::sketch::options::{SketchKind, SketchOptions};
use crate::sketch::rng;
use crate::sketch::rng::Rng;
use crate::sketch::rough;
use crate::style;
use crate::style::{
    Fill, FillStrokeStyle, FillView, GradientStop, SketchFill, Stroke, StrokeView, StyleView,
};

verus! {

/// What is done with a node.
#[derive(Debug, Clone, Copy, PartialEq, Eq, Structural)]
pub enum Visit {
    /// It stays as it is, with all below it.
    Skip,
    /// Its children are visited.
    Descend,
    /// Its element is drawn by hand.
    Sketch,
}

/// What is done with a node that the caller's filter accepts or not.
pub open spec fn visit_of(node: SceneNode, accepted: bool, opts: SketchOptions) -> Visit {
    if !node.visible || !accepted {
        Visit::Skip
    } else if node.element is Group {
        Visit::Descend
    } else {
        match SketchKind::kind_of(node.element) {
            Some(k) if opts.kinds.has(k) => Visit::Sketch,
            _ => Visit::Skip,
        }
    }
}

/// What is done with a node: hidden and rejected nodes are skipped with all below them.
pub fn visit(node: &SceneNode, accepted: bool, opts: &SketchOptions) -> (v: Visit)
    ensures
        v == visit_of(*node, accepted, *opts),
{
    if !node.visible || !accepted {
        return Visit::Skip;
    }
    match &node.element {
        Element::Group { .. } => Visit::Descend,
        el => match SketchKind::of(el) {
            Some(k) => if opts.kinds.contains(k) {
                Visit::Sketch
            } else {
                Visit::Skip
            },
            None => Visit::Skip,
        },
    }
}

/// With no kinds selected nothing is drawn by hand.
pub proof fn law_no_kinds_no_sketch(node: SceneNode, accepted: bool, opts: SketchOptions)
    requires
        forall|k: SketchKind| !opts.kinds.has(k),
    ensures
        visit_of(node, accepted, opts) != Visit::Sketch,
{
}

/// The color of the last stop: that with the largest offset, and of equal ones the last.
pub open spec fn last_stop_of(stops: Seq<GradientStop>) -> Option<GradientStop>
    decreases stops.len(),
{
    if stops.len() == 0 {
        None
    } else {
        match last_stop_of(stops.drop_last()) {
            Some(best) if stops.last().offset.less(best.offset) => Some(best),
            _ => Some(stops.last()),
        }
    }
}

pub open spec fn stop_color(s: Option<GradientStop>) -> Option<Color> {
    match s {
        Some(s) => Some(s.color),
        None => None,
    }
}

fn last_stop(stops: &Vec<GradientStop>) -> (r: Option<Color>)
    ensures
        r == stop_color(last_stop_of(stops@)),
{
    let mut best: Option<GradientStop> = None;
    let mut i: usize = 0;
    while i < stops.len()
        invariant
            i <= stops@.len(),
            best == last_stop_of(stops@.take(i as int)),
        decreases stops.len() - i,
    {
        assert(stops@.take(i + 1).drop_last() =~= stops@.take(i as int));
        let s = stops[i];
        best = match best {
            Some(b) => if s.offset.lt(b.offset) {
                Some(b)
            } else {
                Some(s)
            },
            None => Some(s),
        };
        i += 1;
    }
    assert(stops@.take(stops@.len() as int) =~= stops@);
    match best {
        Some(s) => Some(s.color),
        None => None,
    }
}

/// The style of an element that has one.
pub open spec fn style_view(el: Element) -> Option<StyleView> {
    match el {
        Element::Rect { rect, style } => Some(style@),
        Element::Circle { center, radius, style } => Some(style@),
        Element::Ellipse { center, radii, rotation, style } => Some(style@),
        Element::RoundedRect { rect, radius, style } => Some(style@),
        Element::Polygon { points, style } => Some(style@),
        Element::Pie { center, radius, start_angle, sweep_angle, style } => Some(style@),
        Element::Path { path, style, closed } => Some(style@),
        _ => None,
    }
}

/// The style of an element that has one.
pub fn style_of(el: &Element) -> (r: Option<&FillStrokeStyle>)
    ensures
        r is Some <==> style_view(*el) is Some,
        r matches Some(s) ==> Some(s@) == style_view(*el),
{
    match el {
        Element::Rect { style, .. } => Some(style),
        Element::Circle { style, .. } => Some(style),
        Element::Ellipse { style, .. } => Some(style),
        Element::RoundedRect { style, .. } => Some(style),
        Element::Polygon { style, .. } => Some(style),
        Element::Pie { style, .. } => Some(style),
        Element::Path { style, .. } => Some(style),
        _ => None,
    }
}

/// The stroke that an element is drawn with.
pub open spec fn stroke_view_of(el: Element) -> Option<StrokeView> {
    match el {
        Element::Line { start, end, style } => Some(style@),
        Element::Polyline { points, style } => Some(style@),
        Element::Arc { center, radii, start_angle, sweep_angle, style } => Some(style@),
        Element::GradientPath { path, gradient, stroke } => style::stroke_view(stroke),
        _ => match style_view(el) {
            Some(s) => s.stroke,
            None => None,
        },
    }
}

/// The stroke that an element is drawn with.
pub fn stroke_of(el: &Element) -> (r: Option<Stroke>)
    ensures
        style::stroke_view(r) == stroke_view_of(*el),
{
    match el {
        Element::Line { style, .. } => Some(style.clone()),
        Element::Polyline { style, .. } => Some(style.clone()),
        Element::Arc { style, .. } => Some(style.clone()),
        Element::GradientPath { stroke, .. } => style::copy_stroke(stroke),
        _ => match style_of(el) {
            Some(s) => style::copy_stroke(&s.stroke),
            None => None,
        },
    }
}

/// The fill of an element.
pub open spec fn fill_view_of(el: Element) -> Option<FillView> {
    match el {
        Element::GradientPath { path, gradient, stroke } => Some(
            FillView::Linear {
                start: gradient.start,
                end: gradient.end,
                stops: gradient.stops@,
            },
        ),
        _ => match style_view(el) {
            Some(s) => s.fill,
            None => None,
        },
    }
}

/// The fill of an element.
pub fn original_fill(el: &Element) -> (r: Option<Fill>)
    ensures
        style::fill_view(r) == fill_view_of(*el),
{
    match el {
        Element::GradientPath { gradient, .. } => Some(Fill::LinearGradient(gradient.clone())),
        _ => match style_of(el) {
            Some(s) => style::copy_fill(&s.fill),
            None => None,
        },
    }
}

/// The color of a fill: of a gradient that of its last stop, and none for one that is drawn by
/// hand already.
pub open spec fn color_of(fill: Option<FillView>) -> Option<Color> {
    match fill {
        Some(FillView::Solid(c)) => Some(c),
        Some(FillView::Linear { start, end, stops }) => stop_color(last_stop_of(stops)),
        Some(FillView::Radial { center, radius, stops }) => stop_color(last_stop_of(stops)),
        _ => None,
    }
}

fn color_of_fill(fill: &Option<Fill>) -> (r: Option<Color>)
    ensures
        r == color_of(style::fill_view(*fill)),
{
    match fill {
        Some(Fill::Solid(c)) => Some(*c),
        Some(Fill::LinearGradient(g)) => last_stop(&g.stops),
        Some(Fill::RadialGradient(g)) => last_stop(&g.stops),
        Some(Fill::Sketch(_)) => None,
        None => None,
    }
}

/// The color of the fill of an element.
pub fn fill_color(el: &Element) -> (r: Option<Color>)
    ensures
        r == color_of(fill_view_of(*el)),
{
    match el {
        Element::GradientPath { gradient, .. } => last_stop(&gradient.stops),
        _ => match style_of(el) {
            Some(s) => color_of_fill(&s.fill),
            None => None,
        },
    }
}

/// The distance between the lines of a fill: so large that the box is no wider than the allowed
/// number of distances, along the lines and across them. `turn` is the cosine and the sine of the direction.
pub open spec fn gap_for(b: Option<Rect>, turn: Vec2, opts: SketchOptions) -> Scalar {
    let gap = style::spaced(opts.fill_gap);
    match b {
        None => gap,
        Some(b) => {
            let w = b.x1.difference(b.x0);
            let h = b.y1.difference(b.y0);
            let along = w.product(turn.y).absolute().sum(h.product(turn.x).absolute());
            let across = w.product(turn.x).absolute().sum(h.product(turn.y).absolute());
            let max = if opts.max_fill_strokes == 0 {
                1nat
            } else {
                opts.max_fill_strokes as nat
            };
            gap.greatest(along.greatest(across).quotient(Scalar::integer(max)))
        },
    }
}

fn floored_gap(b: Option<Rect>, turn: Vec2, opts: &SketchOptions) -> (r: Scalar)
    ensures
        r == gap_for(b, turn, *opts),
{
    let gap = style::spacing(opts.fill_gap);
    match b {
        None => gap,
        Some(b) => {
            let w = b.width();
            let h = b.height();
            let along = w.mul(turn.y).abs().add(h.mul(turn.x).abs());
            let across = w.mul(turn.x).abs().add(h.mul(turn.y).abs());
            let max: u64 = if opts.max_fill_strokes == 0 {
                1
            } else {
                opts.max_fill_strokes as u64
            };
            gap.max(along.max(across).div(Scalar::from_u64(max)))
        },
    }
}

/// The box is too small for a hand-drawn fill.
pub open spec fn too_small(b: Option<Rect>, opts: SketchOptions) -> bool {
    match (opts.min_fill_area, b) {
        (Some(min), Some(b)) => b.x1.difference(b.x0).product(b.y1.difference(b.y0)).less(min),
        _ => false,
    }
}

/// The hand-drawn fill of an element in a box; none where its fill stays as it is.
pub open spec fn sketch_fill_of(
    el: Element,
    b: Option<Rect>,
    turn: Vec2,
    opts: SketchOptions,
) -> Option<
    SketchFill,
> {
    match (opts.fill, color_of(fill_view_of(el))) {
        (Some(style), Some(color)) => if too_small(b, opts) {
            None
        } else {
            Some(
                SketchFill {
                    color,
                    style,
                    angle: opts.fill_angle,
                    line_gap: gap_for(b, turn, opts),
                    fill_weight: opts.fill_weight,
                },
            )
        },
        _ => None,
    }
}

/// The style with a hand-drawn fill and no stroke.
pub open spec fn sketched_style(f: SketchFill) -> StyleView {
    StyleView { fill: Some(FillView::Sketch(f)), stroke: None }
}

/// `out` is the shape of `el` with a hand-drawn fill and no stroke.
pub open spec fn is_fill_of(out: Element, el: Element, f: SketchFill) -> bool {
    style_view(out) == Some(sketched_style(f)) && match el {
        Element::Rect { rect, .. } => out matches Element::Rect { rect: r, .. } && r == rect,
        Element::Circle { center, radius, .. } => out matches Element::Circle {
            center: c,
            radius: r,
            ..
        } && c == center && r == radius,
        Element::Ellipse { center, radii, rotation, .. } => out matches Element::Ellipse {
            center: c,
            radii: r,
            rotation: t,
            ..
        } && c == center && r == radii && t == rotation,
        Element::RoundedRect { rect, radius, .. } => out matches Element::RoundedRect {
            rect: r,
            radius: d,
            ..
        } && r == rect && d == radius,
        Element::Polygon { points, .. } => out matches Element::Polygon { points: p, .. } && p@
            == points@,
        Element::Pie { center, radius, start_angle, sweep_angle, .. } =>
            out matches Element::Pie {
            center: c,
            radius: r,
            start_angle: a,
            sweep_angle: s,
            ..
        } && c == center && r == radius && a == start_angle && s == sweep_angle,
        Element::Path { path, closed, .. } => out matches Element::Path { path: p, closed: c, .. }
            && p@ == path@ && c == closed,
        Element::GradientPath { path, .. } => out matches Element::Path { path: p, closed: c, .. }
            && p@ == path@ && c,
        _ => false,
    }
}

/// The shape of an element with a hand-drawn fill and no stroke.
fn with_fill(el: &Element, f: SketchFill) -> (r: Option<Element>)
    requires
        color_of(fill_view_of(*el)) is Some,
    ensures
        r matches Some(out) && is_fill_of(out, *el, f),
{
    let style = FillStrokeStyle { fill: Some(Fill::Sketch(f)), stroke: None };
    match el {
        Element::Rect { rect, .. } => Some(Element::Rect { rect: *rect, style }),
        Element::Circle { center, radius, .. } => Some(
            Element::Circle { center: *center, radius: *radius, style },
        ),
        Element::Ellipse { center, radii, rotation, .. } => Some(
            Element::Ellipse { center: *center, radii: *radii, rotation: *rotation, style },
        ),
        Element::RoundedRect { rect, radius, .. } => Some(
            Element::RoundedRect { rect: *rect, radius: *radius, style },
        ),
        Element::Polygon { points, .. } => Some(
            Element::Polygon { points: copied(points), style },
        ),
        Element::Pie { center, radius, start_angle, sweep_angle, .. } => Some(
            Element::Pie {
                center: *center,
                radius: *radius,
                start_angle: *start_angle,
                sweep_angle: *sweep_angle,
                style,
            },
        ),
        Element::Path { path, closed, .. } => Some(
            Element::Path { path: path.clone(), style, closed: *closed },
        ),
        Element::GradientPath { path, .. } => Some(
            Element::Path { path: path.clone(), style, closed: true },
        ),
        _ => None,
    }
}

/// The fill of an element drawn by hand: its own shape, and no stroke.
///
/// None where no style is asked for, where it has no fill to convert, and where its box is too
/// small.
pub fn fill_element(el: &Element, b: Option<Rect>, turn: Vec2, opts: &SketchOptions) -> (r: Option<
    Element,
>)
    ensures
        match sketch_fill_of(*el, b, turn, *opts) {
            Some(f) => r matches Some(out) && is_fill_of(out, *el, f),
            None => r is None,
        },
{
    let style = match opts.fill {
        Some(style) => style,
        None => {
            return None;
        },
    };
    if let Some(min) = opts.min_fill_area {
        if let Some(b) = b {
            if b.width().mul(b.height()).lt(min) {
                return None;
            }
        }
    }
    let color = match fill_color(el) {
        Some(color) => color,
        None => {
            return None;
        },
    };
    let f = SketchFill::new(color).with_style(style).with_angle(opts.fill_angle).with_gap(
        floored_gap(b, turn, opts),
    ).with_fill_weight(opts.fill_weight);
    with_fill(el, f)
}

/// The stroke of the outline of an element: its own, or one in the color of its fill.
pub open spec fn outline_stroke(el: Element, opts: SketchOptions) -> Option<StrokeView> {
    match (stroke_view_of(el), color_of(fill_view_of(el))) {
        (Some(s), _) => Some(s),
        (None, Some(c)) if opts.outline_when_unstroked => Some(
            style::plain_stroke(c, opts.outline_width),
        ),
        _ => None,
    }
}

fn stroke_for(el: &Element, opts: &SketchOptions) -> (r: Option<Stroke>)
    ensures
        style::stroke_view(r) == outline_stroke(*el, *opts),
{
    match stroke_of(el) {
        Some(s) => Some(s),
        None => if opts.outline_when_unstroked {
            match fill_color(el) {
                Some(c) => Some(Stroke::new(c, opts.outline_width)),
                None => None,
            }
        } else {
            None
        },
    }
}

/// The line that the pen follows.
#[derive(Debug)]
pub enum Trace {
    /// There is none.
    Nothing,
    Points { points: Vec<Point>, closed: bool },
    /// The outline of a rounded rectangle, closed.
    Rounded { rect: Rect, radius: Scalar },
    /// An arc of an ellipse, after a first point where there is one.
    Arc {
        center: Point,
        radii: Vec2,
        rotation: Scalar,
        start: Scalar,
        sweep: Scalar,
        lead: Option<Point>,
        closed: bool,
    },
    Path { path: BezPath, closed: bool },
}

/// `t` is the line of an element.
pub open spec fn follows(t: Trace, el: Element, r: Rng) -> bool {
    match el {
        Element::Rect { rect, .. } => t matches Trace::Points { points, closed } && points@
            == rough::corners(rect) && closed,
        Element::RoundedRect { rect, radius, .. } => t == (Trace::Rounded {
            rect: fit::in_order(rect),
            radius: rough::fitting_radius(rect, radius),
        }),
        Element::Circle { center, radius, .. } => t == (Trace::Arc {
            center,
            radii: Vec2 { x: radius.absolute(), y: radius.absolute() },
            rotation: Scalar { bits: 0 },
            start: rough::full_sweep(r).0,
            sweep: rough::full_sweep(r).1,
            lead: None,
            closed: false,
        }),
        Element::Ellipse { center, radii, rotation, .. } => t == (Trace::Arc {
            center,
            radii,
            rotation,
            start: rough::full_sweep(r).0,
            sweep: rough::full_sweep(r).1,
            lead: None,
            closed: false,
        }),
        Element::Line { start, end, .. } => t matches Trace::Points { points, closed } && points@
            == seq![start, end] && !closed,
        Element::Polyline { points, .. } => t matches Trace::Points { points: p, closed } && p@
            == points@ && !closed,
        Element::Polygon { points, .. } => t matches Trace::Points { points: p, closed } && p@
            == points@ && closed,
        Element::Arc { center, radii, start_angle, sweep_angle, .. } => t == (Trace::Arc {
            center,
            radii,
            rotation: Scalar { bits: 0 },
            start: start_angle,
            sweep: sweep_angle,
            lead: None,
            closed: false,
        }),
        Element::Pie { center, radius, start_angle, sweep_angle, .. } => t == (Trace::Arc {
            center,
            radii: Vec2 { x: radius.absolute(), y: radius.absolute() },
            rotation: Scalar { bits: 0 },
            start: start_angle,
            sweep: sweep_angle,
            lead: Some(center),
            closed: true,
        }),
        Element::Path { path, closed, .. } => t matches Trace::Path { path: p, closed: c } && p@
            == path@ && c == closed,
        Element::GradientPath { path, .. } => t matches Trace::Path { path: p, closed: c } && p@
            == path@ && c,
        _ => t is Nothing,
    }
}

/// The numbers that choosing the line takes: two for a full ellipse.
pub open spec fn trace_draws(el: Element) -> nat {
    if el is Circle || el is Ellipse {
        2
    } else {
        0
    }
}

fn trace_of(el: &Element, r: &mut Rng) -> (t: Trace)
    ensures
        follows(t, *el, *old(r)),
        *final(r) == old(r).after(trace_draws(*el)),
{
    let zero = Scalar { bits: 0 };
    match el {
        Element::Rect { rect, .. } => Trace::Points {
            points: rough::rect_points(*rect),
            closed: true,
        },
        Element::RoundedRect { rect, radius, .. } => {
            let (rect, radius) = rough::rounded_outline(*rect, *radius);
            Trace::Rounded { rect, radius }
        },
        Element::Circle { center, radius, .. } => {
            let (start, sweep) = rough::ellipse_sweep(r);
            Trace::Arc {
                center: *center,
                radii: Vec2 { x: radius.abs(), y: radius.abs() },
                rotation: zero,
                start,
                sweep,
                lead: None,
                closed: false,
            }
        },
        Element::Ellipse { center, radii, rotation, .. } => {
            let (start, sweep) = rough::ellipse_sweep(r);
            Trace::Arc {
                center: *center,
                radii: *radii,
                rotation: *rotation,
                start,
                sweep,
                lead: None,
                closed: false,
            }
        },
        Element::Line { start, end, .. } => {
            let mut points: Vec<Point> = Vec::new();
            points.push(*start);
            points.push(*end);
            assert(points@ =~= seq![*start, *end]);
            Trace::Points { points, closed: false }
        },
        Element::Polyline { points, .. } => Trace::Points {
            points: copied(points),
            closed: false,
        },
        Element::Polygon { points, .. } => Trace::Points {
            points: copied(points),
            closed: true,
        },
        Element::Arc { center, radii, start_angle, sweep_angle, .. } => Trace::Arc {
            center: *center,
            radii: *radii,
            rotation: zero,
            start: *start_angle,
            sweep: *sweep_angle,
            lead: None,
            closed: false,
        },
        Element::Pie { center, radius, start_angle, sweep_angle, .. } => Trace::Arc {
            center: *center,
            radii: Vec2 { x: radius.abs(), y: radius.abs() },
            rotation: zero,
            start: *start_angle,
            sweep: *sweep_angle,
            lead: Some(*center),
            closed: true,
        },
        Element::Path { path, closed, .. } => Trace::Path { path: path.clone(), closed: *closed },
        Element::GradientPath { path, .. } => Trace::Path { path: path.clone(), closed: true },
        _ => Trace::Nothing,
    }
}

/// What is drawn of an element.
#[derive(Debug)]
pub struct Plan {
    /// The fill drawn by hand; `None` where the fill stays on the outline.
    pub fill: Option<Element>,
    /// The stroke of the outline; `None` where there is no outline.
    pub stroke: Option<Stroke>,
    pub trace: Trace,
}

/// `plan` says what is drawn of an element; `b` is its box and `turn` the cosine and the sine
/// of the direction of fill lines.
pub open spec fn is_plan(
    plan: Plan,
    el: Element,
    b: Option<Rect>,
    turn: Vec2,
    r: Rng,
    opts: SketchOptions,
) -> bool {
    &&& match sketch_fill_of(el, b, turn, opts) {
        Some(f) => plan.fill matches Some(out) && is_fill_of(out, el, f),
        None => plan.fill is None,
    }
    &&& style::stroke_view(plan.stroke) == outline_stroke(el, opts)
    &&& if plan.stroke is Some {
        follows(plan.trace, el, r)
    } else {
        plan.trace is Nothing
    }
}

/// The numbers that planning takes.
pub open spec fn plan_draws(el: Element, opts: SketchOptions) -> nat {
    if outline_stroke(el, opts) is Some {
        trace_draws(el)
    } else {
        0
    }
}

/// Plans what is drawn of an element.
pub fn plan_element(
    el: &Element,
    m: &Measure,
    turn: Vec2,
    r: &mut Rng,
    opts: &SketchOptions,
) -> (plan:
    Plan)
    ensures
        is_plan(
            plan,
            *el,
            fit::element_rect(*el, m.facts(), m.children@),
            turn,
            *old(r),
            *opts,
        ),
        *final(r) == old(r).after(plan_draws(*el, *opts)),
{
    let b = fit::element_bounds(el, m);
    let fill = fill_element(el, b, turn, opts);
    let stroke = stroke_for(el, opts);
    let trace = match &stroke {
        Some(_) => trace_of(el, r),
        None => Trace::Nothing,
    };
    Plan { fill, stroke, trace }
}

/// The values of lists of numbers.
pub open spec fn scalar_views(v: Seq<Vec<Scalar>>) -> Seq<Seq<Scalar>> {
    Seq::new(v.len(), |i: int| v[i]@)
}

/// The numbers that the first `n` parts of a line take.
pub open spec fn parts_draws(parts: Seq<Seq<Point>>, n: nat, closed: bool, multistroke: bool) -> nat
    decreases n,
{
    if n == 0 || n > parts.len() {
        0
    } else {
        parts_draws(parts, (n - 1) as nat, closed, multistroke) + rough::polyline_draws(
            parts[n - 1].len(),
            closed,
            multistroke,
        )
    }
}

/// The elements of the first `n` parts of a line.
pub open spec fn parts_els(
    r: Rng,
    parts: Seq<Seq<Point>>,
    lens: Seq<Seq<Scalar>>,
    n: nat,
    closed: bool,
    opts: SketchOptions,
) -> Seq<PathEl>
    decreases n,
{
    if n == 0 || n > parts.len() {
        Seq::empty()
    } else {
        let m = (n - 1) as nat;
        parts_els(r, parts, lens, m, closed, opts) + rough::polyline_els(
            r.after(parts_draws(parts, m, closed, opts.multistroke)),
            parts[n - 1],
            lens[n - 1],
            closed,
            opts,
        )
    }
}

/// The line is closed.
pub open spec fn is_closed(t: Trace) -> bool {
    match t {
        Trace::Nothing => false,
        Trace::Points { points, closed } => closed,
        Trace::Rounded { rect, radius } => true,
        Trace::Arc { center, radii, rotation, start, sweep, lead, closed } => closed,
        Trace::Path { path, closed } => closed,
    }
}

impl Trace {
    /// Whether the line is closed.
    pub fn closed(&self) -> (r: bool)
        ensures
            r == is_closed(*self),
    {
        match self {
            Trace::Nothing => false,
            Trace::Points { closed, .. } => *closed,
            Trace::Rounded { .. } => true,
            Trace::Arc { closed, .. } => *closed,
            Trace::Path { closed, .. } => *closed,
        }
    }
}

/// Draws the parts of a line.
pub fn outline_path(
    r: &mut Rng,
    parts: &Vec<Vec<Point>>,
    lens: &Vec<Vec<Scalar>>,
    closed: bool,
    opts: &SketchOptions,
) -> (path: BezPath)
    requires
        lens@.len() == parts@.len(),
        forall|i: int| 0 <= i < parts@.len() ==> (#[trigger] lens@[i])@.len() == parts@[i]@.len(),
    ensures
        path@ == parts_els(
            *old(r),
            rough::point_views(parts@),
            scalar_views(lens@),
            parts@.len(),
            closed,
            *opts,
        ),
        *final(r) == old(r).after(
            parts_draws(rough::point_views(parts@), parts@.len(), closed, opts.multistroke),
        ),
{
    let ghost start = *r;
    let ghost pv = rough::point_views(parts@);
    let ghost lv = scalar_views(lens@);
    let mut path = BezPath::new();
    let mut i: usize = 0;
    assert(path@ =~= parts_els(start, pv, lv, 0, closed, *opts));
    while i < parts.len()
        invariant
            i <= parts@.len(),
            lens@.len() == parts@.len(),
            forall|j: int|
                0 <= j < parts@.len() ==> (#[trigger] lens@[j])@.len() == parts@[j]@.len(),
            pv == rough::point_views(parts@),
            lv == scalar_views(lens@),
            path@ == parts_els(start, pv, lv, i as nat, closed, *opts),
            *r == start.after(parts_draws(pv, i as nat, closed, opts.multistroke)),
        decreases parts.len() - i,
    {
        assert(lens@[i as int]@.len() == parts@[i as int]@.len());
        rough::polyline(r, &mut path, &parts[i], &lens[i], closed, opts);
        proof {
            rng::lemma_steps(
                start,
                parts_draws(pv, i as nat, closed, opts.multistroke),
                rough::polyline_draws(parts@[i as int]@.len(), closed, opts.multistroke),
            );
            assert(pv[i as int] == parts@[i as int]@);
            assert(lv[i as int] == lens@[i as int]@);
        }
        i += 1;
    }
    path
}

/// The style of the outline: the stroke, and the fill where it did not move to a part of its
/// own.
pub open spec fn outline_style(el: Element, fill_taken: bool, stroke: StrokeView) -> StyleView {
    StyleView {
        fill: if fill_taken {
            None
        } else {
            fill_view_of(el)
        },
        stroke: Some(stroke),
    }
}

/// `out` is an open path with the given elements and style.
pub open spec fn is_outline(out: Element, els: Seq<PathEl>, style: StyleView) -> bool {
    out matches Element::Path { path, style: s, closed } && path@ == els && s@ == style && !closed
}

/// The drawn line of a plan.
pub open spec fn plan_els(
    plan: Plan,
    r: Rng,
    parts: Seq<Seq<Point>>,
    lens: Seq<Seq<Scalar>>,
    opts: SketchOptions,
) -> Seq<PathEl> {
    parts_els(r, parts, lens, parts.len(), is_closed(plan.trace), opts)
}

/// `out` is what a plan draws: the fill first, and the outline above it where its line is not
/// empty; `next` is the generator after it.
pub open spec fn carried_out(
    out: Seq<Element>,
    el: Element,
    plan: Plan,
    parts: Seq<Seq<Point>>,
    lens: Seq<Seq<Scalar>>,
    r: Rng,
    next: Rng,
    opts: SketchOptions,
) -> bool {
    let els = plan_els(plan, r, parts, lens, opts);
    let traced = plan.stroke is Some && !(plan.trace is Nothing);
    let n = if plan.fill is Some {
        1int
    } else {
        0
    };
    &&& out.len() == n + (if traced && els.len() > 0 {
        1int
    } else {
        0
    })
    &&& plan.fill is Some ==> out[0] == plan.fill->0
    &&& traced && els.len() > 0 ==> is_outline(
        out[n],
        els,
        outline_style(el, plan.fill is Some, plan.stroke->0@),
    )
    &&& next == if traced {
        r.after(parts_draws(parts, parts.len(), is_closed(plan.trace), opts.multistroke))
    } else {
        r
    }
}

/// Carries out a plan: the fill first and the outline above it.
///
/// `parts` are the sampled points of the line, and `lens` the distances from each point to the
/// next and from the last to the first.
pub fn roughen_element(
    el: &Element,
    plan: Plan,
    parts: &Vec<Vec<Point>>,
    lens: &Vec<Vec<Scalar>>,
    r: &mut Rng,
    opts: &SketchOptions,
) -> (out: Vec<Element>)
    requires
        lens@.len() == parts@.len(),
        forall|i: int| 0 <= i < parts@.len() ==> (#[trigger] lens@[i])@.len() == parts@[i]@.len(),
    ensures
        carried_out(
            out@,
            *el,
            plan,
            rough::point_views(parts@),
            scalar_views(lens@),
            *old(r),
            *final(r),
            *opts,
        ),
{
    let Plan { fill, stroke, trace } = plan;
    let mut out: Vec<Element> = Vec::new();
    let taken = fill.is_some();
    match fill {
        Some(f) => {
            out.push(f);
        },
        None => {},
    }
    let closed = trace.closed();
    let drawn = match trace {
        Trace::Nothing => false,
        _ => true,
    };
    match stroke {
        Some(stroke) => {
            if drawn {
                let path = outline_path(r, parts, lens, closed, opts);
                if !path.is_empty() {
                    let fill = if taken {
                        None
                    } else {
                        original_fill(el)
                    };
                    out.push(
                        Element::Path {
                            path,
                            style: FillStrokeStyle { fill, stroke: Some(stroke) },
                            closed: false,
                        },
                    );
                }
            }
        },
        None => {},
    }
    out
}

/// The element that takes the place of another: the one part, or a group of both; none where
/// nothing was drawn.
pub fn sketch_element(parts: Vec<Element>) -> (r: Option<Element>)
    requires
        parts@.len() <= 2,
    ensures
        parts@.len() == 0 <==> r is None,
        parts@.len() == 1 ==> r == Some(parts@[0]),
        parts@.len() == 2 ==> (r matches Some(Element::Group { children }) && children@.len() == 2
            && children@[0].element == parts@[0] && children@[1].element == parts@[1]
            && plain_node(children@[0]) && plain_node(children@[1])),
{
    let mut parts = parts;
    match parts.pop() {
        None => None,
        Some(last) => match parts.pop() {
            None => Some(last),
            Some(first) => {
                let mut children: Vec<SceneNode> = Vec::new();
                children.push(SceneNode::new(first));
                children.push(SceneNode::new(last));
                Some(Element::Group { children })
            },
        },
    }
}

/// A node with nothing applied to its element.
pub open spec fn plain_node(node: SceneNode) -> bool {
    node.z_index == 0 && node.transform is None && node.opacity.bits == ONE_BITS
        && node.name is None && node.visible && node.clip is None
}

/// Puts the drawn parts in the place of the element of a node; the rest of the node stays, and
/// so does the element where nothing was drawn.
pub fn replace_element(node: &mut SceneNode, parts: Vec<Element>)
    requires
        parts@.len() <= 2,
    ensures
        *final(node) == (SceneNode { element: final(node).element, ..*old(node) }),
        parts@.len() == 0 ==> final(node).element == old(node).element,
        parts@.len() == 1 ==> final(node).element == parts@[0],
        parts@.len() == 2 ==> (final(node).element matches Element::Group { children }
            && children@.len() == 2 && children@[0].element == parts@[0] && children@[1].element
            == parts@[1] && plain_node(children@[0]) && plain_node(children@[1])),
{
    match sketch_element(parts) {
        Some(element) => {
            node.element = element;
        },
        None => {},
    }
}

/// The options with which a hand-drawn scene is fitted again.
pub fn refit_options(margin: Scalar) -> (r: FitOptions)
    ensures
        r == (FitOptions {
            margin: if (Scalar { bits: 0 }).less(margin) {
                margin
            } else {
                Scalar { bits: 0 }
            },
            ..fit::plain_options()
        }),
{
    let zero = Scalar { bits: 0 };
    FitOptions::new().with_margin(
        if zero.lt(margin) {
            margin
        } else {
            zero
        },
    )
}

/// What the caller's filter says of a node and of those below it.
#[derive(Debug)]
pub struct Verdict {
    pub accepted: bool,
    pub children: Vec<Verdict>,
}

/// The verdict on the node at an index; nodes without one are accepted.
pub open spec fn accepted_at(vs: Seq<Verdict>, i: int) -> bool {
    if 0 <= i < vs.len() {
        vs[i].accepted
    } else {
        true
    }
}

/// The verdicts below the node at an index.
pub open spec fn verdicts_below(vs: Seq<Verdict>, i: int) -> Seq<Verdict> {
    if 0 <= i < vs.len() {
        vs[i].children@
    } else {
        Seq::empty()
    }
}

/// The places of the elements of a node that are drawn by hand.
pub open spec fn node_targets(
    node: SceneNode,
    accepted: bool,
    vs: Seq<Verdict>,
    path: Seq<int>,
    opts: SketchOptions,
) -> Seq<Seq<int>>
    decreases node, 0nat,
{
    match visit_of(node, accepted, opts) {
        Visit::Skip => Seq::empty(),
        Visit::Sketch => seq![path],
        Visit::Descend => match node.element {
            Element::Group { children } => list_targets(
                children@,
                vs,
                path,
                opts,
                children@.len(),
            ),
            _ => Seq::empty(),
        },
    }
}

/// The places of the elements of the first `n` nodes that are drawn by hand.
pub open spec fn list_targets(
    nodes: Seq<SceneNode>,
    vs: Seq<Verdict>,
    path: Seq<int>,
    opts: SketchOptions,
    n: nat,
) -> Seq<Seq<int>>
    decreases nodes, n,
{
    if n == 0 || n > nodes.len() {
        Seq::empty()
    } else {
        let i = n - 1;
        list_targets(nodes, vs, path, opts, i as nat) + node_targets(
            nodes[i],
            accepted_at(vs, i),
            verdicts_below(vs, i),
            path.push(i),
            opts,
        )
    }
}

/// Paths as sequences of integers.
pub open spec fn path_views(v: Seq<Vec<usize>>) -> Seq<Seq<int>> {
    Seq::new(v.len(), |i: int| indices(v[i]@))
}

/// Indices as integers.
pub open spec fn indices(v: Seq<usize>) -> Seq<int> {
    Seq::new(v.len(), |i: int| v[i] as int)
}

fn collect_node(
    node: &SceneNode,
    accepted: bool,
    vs: &Vec<Verdict>,
    path: &mut Vec<usize>,
    opts: &SketchOptions,
    out: &mut Vec<Vec<usize>>,
)
    ensures
        final(path)@ == old(path)@,
        path_views(final(out)@) == path_views(old(out)@) + node_targets(
            *node,
            accepted,
            vs@,
            indices(old(path)@),
            *opts,
        ),
    decreases node, 0nat,
{
    let ghost before = path_views(out@);
    match visit(node, accepted, opts) {
        Visit::Skip => {
            assert(path_views(out@) =~= before + Seq::<Seq<int>>::empty());
        },
        Visit::Sketch => {
            out.push(copied(path));
            assert(path_views(out@) =~= before + seq![indices(path@)]);
        },
        Visit::Descend => {
            match &node.element {
                Element::Group { children } => collect_list(children, vs, path, opts, out),
                _ => {
                    assert(path_views(out@) =~= before + Seq::<Seq<int>>::empty());
                },
            }
        },
    }
}

fn collect_list(
    nodes: &Vec<SceneNode>,
    vs: &Vec<Verdict>,
    path: &mut Vec<usize>,
    opts: &SketchOptions,
    out: &mut Vec<Vec<usize>>,
)
    ensures
        final(path)@ == old(path)@,
        path_views(final(out)@) == path_views(old(out)@) + list_targets(
            nodes@,
            vs@,
            indices(old(path)@),
            *opts,
            nodes@.len(),
        ),
    decreases nodes@, nodes@.len() + 1,
{
    let ghost before = path_views(out@);
    let ghost start = path@;
    let none: Vec<Verdict> = Vec::new();
    let mut i: usize = 0;
    assert(none@ =~= Seq::<Verdict>::empty());
    assert(before =~= before + list_targets(nodes@, vs@, indices(start), *opts, 0));
    while i < nodes.len()
        invariant
            i <= nodes@.len(),
            path@ == start,
            none@ == Seq::<Verdict>::empty(),
            path_views(out@) == before + list_targets(
                nodes@,
                vs@,
                indices(start),
                *opts,
                i as nat,
            ),
        decreases nodes.len() - i,
    {
        path.push(i);
        assert(indices(path@) =~= indices(start).push(i as int));
        if i < vs.len() {
            collect_node(&nodes[i], vs[i].accepted, &vs[i].children, path, opts, out);
        } else {
            collect_node(&nodes[i], true, &none, path, opts, out);
        }
        let _ = path.pop();
        assert(path@ =~= start);
        i += 1;
        assert(path_views(out@) =~= before + list_targets(
            nodes@,
            vs@,
            indices(start),
            *opts,
            i as nat,
        ));
    }
}

/// The verdicts on a layer; none where they are missing.
pub open spec fn layer_verdicts(vs: Seq<Vec<Verdict>>, i: int) -> Seq<Verdict> {
    if 0 <= i < vs.len() {
        vs[i]@
    } else {
        Seq::empty()
    }
}

/// The places of the elements of a scene that are drawn by hand, in the order of the document:
/// those of its nodes start with 0, those of layer `k` with `k + 1`.
pub open spec fn scene_targets(
    s: Scene,
    vs: Seq<Verdict>,
    layers: Seq<Vec<Verdict>>,
    opts: SketchOptions,
    n: nat,
) -> Seq<Seq<int>>
    decreases n,
{
    if n == 0 || n > s.layers@.len() {
        list_targets(s.nodes@, vs, seq![0int], opts, s.nodes@.len())
    } else {
        let i = n - 1;
        let layer = s.layers@[i];
        scene_targets(s, vs, layers, opts, i as nat) + if layer.visible {
            list_targets(
                layer.nodes@,
                layer_verdicts(layers, i),
                seq![i + 1],
                opts,
                layer.nodes@.len(),
            )
        } else {
            Seq::empty()
        }
    }
}

/// The places of the elements of a scene that are drawn by hand.
pub fn sketch_targets(
    s: &Scene,
    vs: &Vec<Verdict>,
    layers: &Vec<Vec<Verdict>>,
    opts: &SketchOptions,
) -> (out: Vec<Vec<usize>>)
    requires
        s.layers@.len() < usize::MAX,
    ensures
        path_views(out@) == scene_targets(*s, vs@, layers@, *opts, s.layers@.len()),
{
    let none: Vec<Verdict> = Vec::new();
    assert(none@ =~= Seq::<Verdict>::empty());
    let mut out: Vec<Vec<usize>> = Vec::new();
    let mut path: Vec<usize> = Vec::new();
    path.push(0);
    assert(indices(path@) =~= seq![0int]);
    assert(path_views(out@) =~= Seq::<Seq<int>>::empty());
    collect_list(&s.nodes, vs, &mut path, opts, &mut out);
    assert(path_views(out@) =~= scene_targets(*s, vs@, layers@, *opts, 0));
    let mut i: usize = 0;
    while i < s.layers.len()
        invariant
            i <= s.layers@.len(),
            s.layers@.len() < usize::MAX,
            none@ == Seq::<Verdict>::empty(),
            path_views(out@) == scene_targets(*s, vs@, layers@, *opts, i as nat),
        decreases s.layers.len() - i,
    {
        let layer = &s.layers[i];
        let ghost before = path_views(out@);
        if layer.visible {
            let mut path: Vec<usize> = Vec::new();
            path.push(i + 1);
            assert(indices(path@) =~= seq![i + 1]);
            if i < layers.len() {
                collect_list(&layer.nodes, &layers[i], &mut path, opts, &mut out);
            } else {
                collect_list(&layer.nodes, &none, &mut path, opts, &mut out);
            }
        } else {
            assert(before =~= before + Seq::<Seq<int>>::empty());
        }
        i += 1;
    }
    out
}

/// The element at a place below nodes.
pub open spec fn element_in(nodes: Seq<SceneNode>, path: Seq<int>) -> Option<Element>
    decreases path.len(),
{
    if path.len() == 0 || !(0 <= path[0] < nodes.len()) {
        None
    } else if path.len() == 1 {
        Some(nodes[path[0]].element)
    } else {
        match nodes[path[0]].element {
            Element::Group { children } => element_in(children@, path.skip(1)),
            _ => None,
        }
    }
}

fn find_in<'a>(nodes: &'a Vec<SceneNode>, path: &Vec<usize>, depth: usize) -> (r: Option<
    &'a Element,
>)
    requires
        depth <= path@.len(),
    ensures
        match element_in(nodes@, indices(path@).skip(depth as int)) {
            Some(el) => r matches Some(e) && *e == el,
            None => r is None,
        },
    decreases path@.len() - depth,
{
    let ghost rest = indices(path@).skip(depth as int);
    if depth >= path.len() {
        return None;
    }
    let k: usize = path[depth];
    assert(rest[0] == k);
    if k >= nodes.len() {
        return None;
    }
    if depth + 1 == path.len() {
        return Some(&nodes[k].element);
    }
    assert(rest.skip(1) =~= indices(path@).skip(depth + 1));
    match &nodes[k].element {
        Element::Group { children } => find_in(children, path, depth + 1),
        _ => None,
    }
}

/// The nodes of the part of a scene that a place starts with.
pub open spec fn root_nodes(s: Scene, root: int) -> Option<Seq<SceneNode>> {
    if root == 0 {
        Some(s.nodes@)
    } else if 1 <= root <= s.layers@.len() {
        Some(s.layers@[root - 1].nodes@)
    } else {
        None
    }
}

/// The element at a place in a scene.
pub open spec fn element_of(s: Scene, path: Seq<int>) -> Option<Element> {
    if path.len() == 0 {
        None
    } else {
        match root_nodes(s, path[0]) {
            Some(nodes) => element_in(nodes, path.skip(1)),
            None => None,
        }
    }
}

/// The element at a place in a scene.
pub fn element_at<'a>(s: &'a Scene, path: &Vec<usize>) -> (r: Option<&'a Element>)
    ensures
        match element_of(*s, indices(path@)) {
            Some(el) => r matches Some(e) && *e == el,
            None => r is None,
        },
{
    if path.len() == 0 {
        return None;
    }
    let root: usize = path[0];
    if root == 0 {
        find_in(&s.nodes, path, 1)
    } else if root <= s.layers.len() {
        find_in(&s.layers[root - 1].nodes, path, 1)
    } else {
        None
    }
}

/// The element takes the place of another: nothing, one part, or a group of two parts.
pub open spec fn takes_place(el: Element, old_el: Element, parts: Seq<Element>) -> bool {
    &&& parts.len() == 0 ==> el == old_el
    &&& parts.len() == 1 ==> el == parts[0]
    &&& parts.len() == 2 ==> (el matches Element::Group { children } && children@.len() == 2
        && children@[0].element == parts[0] && children@[1].element == parts[1] && plain_node(
        children@[0],
    ) && plain_node(children@[1]))
}

/// `new` is `prior` but for the element at a place, in which the parts stand.
pub open spec fn replaced_in(
    new: Seq<SceneNode>,
    prior: Seq<SceneNode>,
    path: Seq<int>,
    parts: Seq<Element>,
) -> bool
    decreases path.len(),
{
    if path.len() == 0 || !(0 <= path[0] < prior.len()) {
        new == prior
    } else {
        let k = path[0];
        &&& new.len() == prior.len()
        &&& forall|i: int| 0 <= i < new.len() && i != k ==> #[trigger] new[i] == prior[i]
        &&& new[k] == (SceneNode { element: new[k].element, ..prior[k] })
        &&& if path.len() == 1 {
            takes_place(new[k].element, prior[k].element, parts)
        } else {
            match (new[k].element, prior[k].element) {
                (Element::Group { children: a }, Element::Group { children: b }) => replaced_in(
                    a@,
                    b@,
                    path.skip(1),
                    parts,
                ),
                _ => new[k] == prior[k],
            }
        }
    }
}

fn replace_in(nodes: &mut Vec<SceneNode>, path: &Vec<usize>, depth: usize, parts: Vec<Element>)
    requires
        depth <= path@.len(),
        parts@.len() <= 2,
    ensures
        replaced_in(
            final(nodes)@,
            old(nodes)@,
            indices(path@).skip(depth as int),
            parts@,
        ),
    decreases path@.len() - depth,
{
    let ghost rest = indices(path@).skip(depth as int);
    if depth >= path.len() {
        return;
    }
    let k: usize = path[depth];
    assert(rest[0] == k);
    if k >= nodes.len() {
        return;
    }
    if depth + 1 == path.len() {
        replace_element(&mut nodes[k], parts);
        return;
    }
    assert(rest.skip(1) =~= indices(path@).skip(depth + 1));
    match &mut nodes[k].element {
        Element::Group { children } => replace_in(children, path, depth + 1, parts),
        _ => {},
    }
}

/// `new` is `prior` but for the element at a place, in which the parts stand.
pub open spec fn replaced(new: Scene, prior: Scene, p: Seq<int>, parts: Seq<Element>) -> bool {
    &&& new == (Scene { nodes: new.nodes, layers: new.layers, ..prior })
    &&& if p.len() > 0 && p[0] == 0 {
        new.layers == prior.layers && replaced_in(new.nodes@, prior.nodes@, p.skip(1), parts)
    } else if p.len() > 0 && 0 < p[0] <= prior.layers@.len() {
        let k = p[0] - 1;
        &&& new.nodes == prior.nodes
        &&& new.layers@.len() == prior.layers@.len()
        &&& forall|i: int|
            0 <= i < prior.layers@.len() && i != k ==> #[trigger] new.layers@[i]
                == prior.layers@[i]
        &&& new.layers@[k] == (Layer { nodes: new.layers@[k].nodes, ..prior.layers@[k] })
        &&& replaced_in(new.layers@[k].nodes@, prior.layers@[k].nodes@, p.skip(1), parts)
    } else {
        new.nodes == prior.nodes && new.layers == prior.layers
    }
}

/// Puts drawn parts in the place of the element at a place in a scene; the rest of the scene
/// stays, and all of it where there is no such place.
pub fn replace_at(s: &mut Scene, path: &Vec<usize>, parts: Vec<Element>)
    requires
        parts@.len() <= 2,
    ensures
        replaced(*final(s), *old(s), indices(path@), parts@),
{
    if path.len() == 0 {
        return;
    }
    let root: usize = path[0];
    if root == 0 {
        replace_in(&mut s.nodes, path, 1, parts);
    } else if root <= s.layers.len() {
        replace_in(&mut s.layers[root - 1].nodes, path, 1, parts);
    }
}

/// The element is of a kind that is drawn by hand.
pub open spec fn selected(el: Option<Element>, opts: SketchOptions) -> bool {
    match el {
        Some(el) => match SketchKind::kind_of(el) {
            Some(k) => opts.kinds.has(k),
            None => false,
        },
        None => false,
    }
}

/// The places lie below a place, and lead from nodes to elements that are drawn by hand.
spec fn lead_below(
    targets: Seq<Seq<int>>,
    nodes: Seq<SceneNode>,
    path: Seq<int>,
    opts: SketchOptions,
) -> bool {
    forall|i: int|
        0 <= i < targets.len() ==> {
            let t = #[trigger] targets[i];
            &&& t.len() > path.len()
            &&& t.take(path.len() as int) == path
            &&& selected(element_in(nodes, t.skip(path.len() as int)), opts)
        }
}

proof fn lemma_list_targets(
    nodes: Seq<SceneNode>,
    vs: Seq<Verdict>,
    path: Seq<int>,
    opts: SketchOptions,
    n: nat,
)
    requires
        n <= nodes.len(),
    ensures
        lead_below(list_targets(nodes, vs, path, opts, n), nodes, path, opts),
    decreases nodes, n,
{
    if n > 0 {
        let k = n - 1;
        lemma_list_targets(nodes, vs, path, opts, k as nat);
        let before = list_targets(nodes, vs, path, opts, k as nat);
        let node = nodes[k];
        let here = path.push(k);
        let more = node_targets(node, accepted_at(vs, k), verdicts_below(vs, k), here, opts);
        let all = list_targets(nodes, vs, path, opts, n);
        assert(here.take(path.len() as int) =~= path);
        if visit_of(node, accepted_at(vs, k), opts) == Visit::Descend {
            if let Element::Group { children } = node.element {
                lemma_list_targets(
                    children@,
                    verdicts_below(vs, k),
                    here,
                    opts,
                    children@.len(),
                );
            }
        }
        assert forall|i: int| 0 <= i < all.len() implies {
            let t = #[trigger] all[i];
            &&& t.len() > path.len()
            &&& t.take(path.len() as int) == path
            &&& selected(element_in(nodes, t.skip(path.len() as int)), opts)
        } by {
            if i < before.len() {
                assert(all[i] == before[i]);
            } else {
                let t = more[i - before.len()];
                assert(all[i] == t);
                let tail = t.skip(path.len() as int);
                if visit_of(node, accepted_at(vs, k), opts) == Visit::Sketch {
                    assert(tail =~= seq![k]);
                } else {
                    assert(t.take(here.len() as int) == here);
                    assert(t[path.len() as int] == here[path.len() as int]);
                    assert(t.take(path.len() as int) =~= path) by {
                        assert forall|j: int| 0 <= j < path.len() implies t[j] == path[j] by {
                            assert(t.take(here.len() as int)[j] == here[j]);
                        }
                    }
                    assert(tail[0] == k);
                    assert(tail.skip(1) =~= t.skip(here.len() as int));
                }
            }
        }
    }
}

/// Only elements of the selected kinds are drawn by hand: each place leads to one.
pub proof fn law_targets_are_selected(
    s: Scene,
    vs: Seq<Verdict>,
    layers: Seq<Vec<Verdict>>,
    opts: SketchOptions,
    n: nat,
    i: int,
)
    requires
        n <= s.layers@.len(),
        0 <= i < scene_targets(s, vs, layers, opts, n).len(),
    ensures
        selected(element_of(s, scene_targets(s, vs, layers, opts, n)[i]), opts),
    decreases n,
{
    let t = scene_targets(s, vs, layers, opts, n)[i];
    if n == 0 {
        lemma_list_targets(s.nodes@, vs, seq![0int], opts, s.nodes@.len());
        assert(t.take(1)[0] == 0);
    } else {
        let before = scene_targets(s, vs, layers, opts, (n - 1) as nat);
        if i < before.len() {
            law_targets_are_selected(s, vs, layers, opts, (n - 1) as nat, i);
        } else {
            let layer = s.layers@[n - 1];
            let vl = layer_verdicts(layers, n - 1);
            let more = list_targets(layer.nodes@, vl, seq![n as int], opts, layer.nodes@.len());
            lemma_list_targets(layer.nodes@, vl, seq![n as int], opts, layer.nodes@.len());
            assert(t == more[i - before.len()]);
            assert(t.take(1)[0] == n);
        }
    }
}

/// Text and images are never drawn by hand.
pub proof fn law_text_and_images_stay(el: Element, b: Option<Rect>, turn: Vec2, opts: SketchOptions)
    requires
        el is Text || el is Image,
    ensures
        SketchKind::kind_of(el) is None,
        sketch_fill_of(el, b, turn, opts) is None,
        outline_stroke(el, opts) is None,
{
}

/// A fill that is drawn by hand already is not drawn again.
pub proof fn law_sketched_fills_stay(el: Element, b: Option<Rect>, turn: Vec2, opts: SketchOptions)
    requires
        fill_view_of(el) matches Some(FillView::Sketch(_)),
    ensures
        sketch_fill_of(el, b, turn, opts) is None,
{
}

} // verus!
