//! Fills and strokes.

use vstd::prelude::*;
use crate::copy::copied;
use crate::geometry::{Color, Point};
use crate::scalar::Scalar;

verus! {

/// The bit pattern of `10.0`.
pub const TEN_BITS: u64 = 0x4024_0000_0000_0000;

/// How a line ends.
#[derive(Debug, Clone, Copy, PartialEq, Eq, Structural)]
pub enum LineCap {
    /// Default.
    Butt,
    Round,
    Square,
}

impl Default for LineCap {
    fn default() -> (r: LineCap)
        ensures
            r == LineCap::Butt,
    {
        LineCap::Butt
    }
}

/// How two lines meet.
#[derive(Debug, Clone, Copy, PartialEq, Eq, Structural)]
pub enum LineJoin {
    /// Default.
    Miter,
    Round,
    Bevel,
}

impl Default for LineJoin {
    fn default() -> (r: LineJoin)
        ensures
            r == LineJoin::Miter,
    {
        LineJoin::Miter
    }
}

/// A stroke.
#[derive(Debug, PartialEq)]
pub struct Stroke {
    pub color: Color,
    pub width: Scalar,
    pub line_cap: LineCap,
    pub line_join: LineJoin,
    /// Alternating lengths of dashes and gaps; empty for a solid line.
    pub dash_array: Vec<Scalar>,
    pub dash_offset: Scalar,
    pub miter_limit: Scalar,
}

/// The value of a [`Stroke`].
#[verifier::ext_equal]
pub struct StrokeView {
    pub color: Color,
    pub width: Scalar,
    pub line_cap: LineCap,
    pub line_join: LineJoin,
    pub dash_array: Seq<Scalar>,
    pub dash_offset: Scalar,
    pub miter_limit: Scalar,
}

impl View for Stroke {
    type V = StrokeView;

    open spec fn view(&self) -> StrokeView {
        StrokeView {
            color: self.color,
            width: self.width,
            line_cap: self.line_cap,
            line_join: self.line_join,
            dash_array: self.dash_array@,
            dash_offset: self.dash_offset,
            miter_limit: self.miter_limit,
        }
    }
}

/// A solid stroke with butt caps, miter joins and miter limit 10.
pub open spec fn plain_stroke(color: Color, width: Scalar) -> StrokeView {
    StrokeView {
        color,
        width,
        line_cap: LineCap::Butt,
        line_join: LineJoin::Miter,
        dash_array: Seq::empty(),
        dash_offset: Scalar { bits: 0 },
        miter_limit: Scalar { bits: TEN_BITS },
    }
}

impl Clone for Stroke {
    fn clone(&self) -> (r: Stroke)
        ensures
            r@ == self@,
    {
        Stroke {
            color: self.color,
            width: self.width,
            line_cap: self.line_cap,
            line_join: self.line_join,
            dash_array: copied(&self.dash_array),
            dash_offset: self.dash_offset,
            miter_limit: self.miter_limit,
        }
    }
}

impl Default for Stroke {
    fn default() -> (r: Stroke)
        ensures
            r@ == plain_stroke(Color { r: 0, g: 0, b: 0, a: 0 }, Scalar { bits: 0 }),
    {
        Stroke::new(Color { r: 0, g: 0, b: 0, a: 0 }, Scalar { bits: 0 })
    }
}

impl Stroke {
    /// A solid stroke.
    pub fn new(color: Color, width: Scalar) -> (r: Stroke)
        ensures
            r@ == plain_stroke(color, width),
    {
        Stroke {
            color,
            width,
            line_cap: LineCap::Butt,
            line_join: LineJoin::Miter,
            dash_array: Vec::new(),
            dash_offset: Scalar { bits: 0 },
            miter_limit: Scalar { bits: TEN_BITS },
        }
    }

    /// A dashed stroke.
    pub fn dashed(color: Color, width: Scalar, dash_array: Vec<Scalar>) -> (r: Stroke)
        ensures
            r@ == (StrokeView { dash_array: dash_array@, ..plain_stroke(color, width) }),
    {
        Stroke {
            color,
            width,
            line_cap: LineCap::Butt,
            line_join: LineJoin::Miter,
            dash_array,
            dash_offset: Scalar { bits: 0 },
            miter_limit: Scalar { bits: TEN_BITS },
        }
    }
}

/// A color at a place along a gradient.
#[derive(Debug, Clone, Copy, PartialEq, Eq, Structural)]
pub struct GradientStop {
    pub offset: Scalar,
    pub color: Color,
}

/// A gradient along a line.
#[derive(Debug, PartialEq)]
pub struct LinearGradient {
    pub start: Point,
    pub end: Point,
    pub stops: Vec<GradientStop>,
}

/// A gradient from a center outward.
#[derive(Debug, PartialEq)]
pub struct RadialGradient {
    pub center: Point,
    pub radius: Scalar,
    pub stops: Vec<GradientStop>,
}

/// What a shape is filled with.
#[derive(Debug, PartialEq)]
pub enum Fill {
    Solid(Color),
    LinearGradient(LinearGradient),
    RadialGradient(RadialGradient),
    /// Drawn by hand.
    Sketch(SketchFill),
}

/// How a hand-drawn fill is drawn.
#[derive(Debug, Clone, Copy, PartialEq, Eq, Structural)]
pub enum SketchFillStyle {
    /// Parallel lines.
    Hachure,
    /// Two crossing families of parallel lines.
    CrossHatch,
    /// Lines that swing to both sides.
    Zigzag,
    /// A lattice of dots.
    Dots,
}

/// A hand-drawn fill.
#[derive(Debug, Clone, Copy, PartialEq, Eq, Structural)]
pub struct SketchFill {
    pub color: Color,
    pub style: SketchFillStyle,
    /// Direction of the lines in degrees.
    pub angle: Scalar,
    /// Distance between lines as given; see [`SketchFill::gap`].
    pub line_gap: Scalar,
    /// Width of a line as given; see [`SketchFill::weight`].
    pub fill_weight: Scalar,
}

/// The bit pattern of `4.0`.
pub const GAP_BITS: u64 = 0x4010_0000_0000_0000;

/// The bit pattern of `0.05`.
pub const LEAST_GAP_BITS: u64 = 0x3fa9_9999_9999_999a;

/// The bit pattern of `-41.0`.
pub const SLANT_BITS: u64 = 0xc044_8000_0000_0000;

/// The bit pattern of `0.5`.
pub const WEIGHT_BITS: u64 = 0x3fe0_0000_0000_0000;

/// A usable distance between lines.
pub open spec fn spaced(gap: Scalar) -> Scalar {
    if gap.finite() && (Scalar { bits: LEAST_GAP_BITS }).less(gap) {
        gap
    } else {
        Scalar { bits: GAP_BITS }
    }
}

/// A usable distance between lines: 4 where it is not finite or too small.
pub fn spacing(gap: Scalar) -> (r: Scalar)
    ensures
        r == spaced(gap),
{
    if gap.is_finite() && (Scalar { bits: LEAST_GAP_BITS }).lt(gap) {
        gap
    } else {
        Scalar { bits: GAP_BITS }
    }
}

impl SketchFill {
    /// Lines at -41 degrees, 4 apart, of width 0.5.
    pub fn new(color: Color) -> (r: SketchFill)
        ensures
            r == (SketchFill {
                color,
                style: SketchFillStyle::Hachure,
                angle: Scalar { bits: SLANT_BITS },
                line_gap: Scalar { bits: GAP_BITS },
                fill_weight: Scalar { bits: WEIGHT_BITS },
            }),
    {
        SketchFill {
            color,
            style: SketchFillStyle::Hachure,
            angle: Scalar { bits: SLANT_BITS },
            line_gap: Scalar { bits: GAP_BITS },
            fill_weight: Scalar { bits: WEIGHT_BITS },
        }
    }

    pub fn with_style(self, style: SketchFillStyle) -> (r: SketchFill)
        ensures
            r == (SketchFill { style, ..self }),
    {
        SketchFill { style, ..self }
    }

    pub fn with_angle(self, angle: Scalar) -> (r: SketchFill)
        ensures
            r == (SketchFill { angle, ..self }),
    {
        SketchFill { angle, ..self }
    }

    pub fn with_gap(self, gap: Scalar) -> (r: SketchFill)
        ensures
            r == (SketchFill { line_gap: gap, ..self }),
    {
        SketchFill { line_gap: gap, ..self }
    }

    pub fn with_fill_weight(self, weight: Scalar) -> (r: SketchFill)
        ensures
            r == (SketchFill { fill_weight: weight, ..self }),
    {
        SketchFill { fill_weight: weight, ..self }
    }

    /// The width of a line: 0.5 where it is not positive and finite.
    pub open spec fn pen(self) -> Scalar {
        if self.fill_weight.finite() && (Scalar { bits: 0 }).less(self.fill_weight) {
            self.fill_weight
        } else {
            Scalar { bits: WEIGHT_BITS }
        }
    }

    /// The distance between lines: 4 where it is not finite or too small.
    pub fn gap(&self) -> (r: Scalar)
        ensures
            r == spaced(self.line_gap),
    {
        spacing(self.line_gap)
    }

    /// The width of a line: 0.5 where it is not positive and finite.
    pub fn weight(&self) -> (r: Scalar)
        ensures
            r == self.pen(),
    {
        if self.fill_weight.is_finite() && (Scalar { bits: 0 }).lt(self.fill_weight) {
            self.fill_weight
        } else {
            Scalar { bits: WEIGHT_BITS }
        }
    }
}

/// The value of a [`Fill`].
#[verifier::ext_equal]
pub enum FillView {
    Solid(Color),
    Linear { start: Point, end: Point, stops: Seq<GradientStop> },
    Radial { center: Point, radius: Scalar, stops: Seq<GradientStop> },
    Sketch(SketchFill),
}

impl View for Fill {
    type V = FillView;

    open spec fn view(&self) -> FillView {
        match *self {
            Fill::Solid(c) => FillView::Solid(c),
            Fill::LinearGradient(g) => FillView::Linear {
                start: g.start,
                end: g.end,
                stops: g.stops@,
            },
            Fill::RadialGradient(g) => FillView::Radial {
                center: g.center,
                radius: g.radius,
                stops: g.stops@,
            },
            Fill::Sketch(f) => FillView::Sketch(f),
        }
    }
}

impl Clone for LinearGradient {
    fn clone(&self) -> (r: LinearGradient)
        ensures
            r.start == self.start,
            r.end == self.end,
            r.stops@ == self.stops@,
    {
        LinearGradient { start: self.start, end: self.end, stops: copied(&self.stops) }
    }
}

impl Clone for RadialGradient {
    fn clone(&self) -> (r: RadialGradient)
        ensures
            r.center == self.center,
            r.radius == self.radius,
            r.stops@ == self.stops@,
    {
        RadialGradient { center: self.center, radius: self.radius, stops: copied(&self.stops) }
    }
}

impl Clone for Fill {
    fn clone(&self) -> (r: Fill)
        ensures
            r@ == self@,
    {
        match self {
            Fill::Solid(c) => Fill::Solid(*c),
            Fill::LinearGradient(g) => Fill::LinearGradient(g.clone()),
            Fill::RadialGradient(g) => Fill::RadialGradient(g.clone()),
            Fill::Sketch(f) => Fill::Sketch(*f),
        }
    }
}

/// How a shape is filled and outlined.
#[derive(Debug, PartialEq)]
pub struct FillStrokeStyle {
    pub fill: Option<Fill>,
    pub stroke: Option<Stroke>,
}

/// The value of a [`FillStrokeStyle`].
#[verifier::ext_equal]
pub struct StyleView {
    pub fill: Option<FillView>,
    pub stroke: Option<StrokeView>,
}

/// The value of an optional stroke.
pub open spec fn stroke_view(s: Option<Stroke>) -> Option<StrokeView> {
    match s {
        Some(s) => Some(s@),
        None => None,
    }
}

/// The value of an optional fill.
pub open spec fn fill_view(f: Option<Fill>) -> Option<FillView> {
    match f {
        Some(f) => Some(f@),
        None => None,
    }
}

impl View for FillStrokeStyle {
    type V = StyleView;

    open spec fn view(&self) -> StyleView {
        StyleView { fill: fill_view(self.fill), stroke: stroke_view(self.stroke) }
    }
}

/// A copy of an optional stroke.
pub fn copy_stroke(s: &Option<Stroke>) -> (r: Option<Stroke>)
    ensures
        stroke_view(r) == stroke_view(*s),
{
    match s {
        Some(s) => Some(s.clone()),
        None => None,
    }
}

/// A copy of an optional fill.
pub fn copy_fill(f: &Option<Fill>) -> (r: Option<Fill>)
    ensures
        fill_view(r) == fill_view(*f),
{
    match f {
        Some(f) => Some(f.clone()),
        None => None,
    }
}

impl Clone for FillStrokeStyle {
    fn clone(&self) -> (r: FillStrokeStyle)
        ensures
            r@ == self@,
    {
        FillStrokeStyle { fill: copy_fill(&self.fill), stroke: copy_stroke(&self.stroke) }
    }
}

impl Default for FillStrokeStyle {
    fn default() -> (r: FillStrokeStyle)
        ensures
            r@ == (StyleView { fill: None, stroke: None }),
    {
        FillStrokeStyle { fill: None, stroke: None }
    }
}

impl FillStrokeStyle {
    /// A solid fill.
    pub fn fill(color: Color) -> (r: FillStrokeStyle)
        ensures
            r@ == (StyleView { fill: Some(FillView::Solid(color)), stroke: None }),
    {
        FillStrokeStyle { fill: Some(Fill::Solid(color)), stroke: None }
    }

    /// A gradient fill.
    pub fn fill_gradient(gradient: Fill) -> (r: FillStrokeStyle)
        ensures
            r@ == (StyleView { fill: Some(gradient@), stroke: None }),
    {
        FillStrokeStyle { fill: Some(gradient), stroke: None }
    }

    /// A stroke alone.
    pub fn stroke(color: Color, width: Scalar) -> (r: FillStrokeStyle)
        ensures
            r@ == (StyleView { fill: None, stroke: Some(plain_stroke(color, width)) }),
    {
        FillStrokeStyle { fill: None, stroke: Some(Stroke::new(color, width)) }
    }
}

impl From<Color> for Fill {
    fn from(c: Color) -> (r: Fill) {
        Fill::Solid(c)
    }
}

impl vstd::std_specs::convert::FromSpecImpl<Color> for Fill {
    open spec fn obeys_from_spec() -> bool {
        true
    }

    open spec fn from_spec(c: Color) -> Fill {
        Fill::Solid(c)
    }
}

impl From<LinearGradient> for Fill {
    fn from(g: LinearGradient) -> (r: Fill) {
        Fill::LinearGradient(g)
    }
}

impl vstd::std_specs::convert::FromSpecImpl<LinearGradient> for Fill {
    open spec fn obeys_from_spec() -> bool {
        true
    }

    open spec fn from_spec(g: LinearGradient) -> Fill {
        Fill::LinearGradient(g)
    }
}

impl From<RadialGradient> for Fill {
    fn from(g: RadialGradient) -> (r: Fill) {
        Fill::RadialGradient(g)
    }
}

impl vstd::std_specs::convert::FromSpecImpl<RadialGradient> for Fill {
    open spec fn obeys_from_spec() -> bool {
        true
    }

    open spec fn from_spec(g: RadialGradient) -> Fill {
        Fill::RadialGradient(g)
    }
}

} // verus!
