//! Nodes in the manner of a drawing context.
//!
//! A context holds the fill, the stroke, the font and what applies to each node that it makes.
//! Its methods make nodes; none of them draws.

use std::sync::Arc;
use vstd::prelude::*;
use crate::copy;
use crate::copy::copied_clip;
use crate::geometry::{Color, Point, Rect, Transform, Vec2};
use crate::path::BezPath;
use crate::path2d::Path2D;
use crate::render::spans::EPSILON_BITS;
use crate::scalar::{Scalar, ONE_BITS};
use crate::scene;
use crate::scene::{Clip, Element, Layer, SceneImage, SceneNode};
use crate::style;
use crate::style::{
    Fill, FillStrokeStyle, FillView, GradientStop, LineCap, LineJoin, LinearGradient, Stroke,
    StrokeView, StyleView,
};
use crate::text::layout::TextLayout;
use crate::text::style::{clone_text, RichSpan, TextAlign, TextBaseline, TextStyle};

verus! {

/// A drawing context.
#[derive(Debug)]
pub struct Ctx {
    /// Fill of shapes; text has the color of its font.
    pub fill: Option<Fill>,
    pub stroke: Option<Stroke>,
    pub font: TextStyle,
    /// Applied to each node.
    pub transform: Option<Transform>,
    /// Opacity of each node.
    pub alpha: Scalar,
    pub clip: Option<Clip>,
    pub name: Option<String>,
    pub z_index: i32,
}

impl Clone for Ctx {
    fn clone(&self) -> (r: Ctx)
        ensures
            same_ctx(r, *self),
    {
        Ctx {
            fill: style::copy_fill(&self.fill),
            stroke: style::copy_stroke(&self.stroke),
            font: self.font.clone(),
            transform: self.transform,
            alpha: self.alpha,
            clip: copied_clip(&self.clip),
            name: clone_text(&self.name),
            z_index: self.z_index,
        }
    }
}

/// The contexts make the same nodes.
pub open spec fn same_ctx(a: Ctx, b: Ctx) -> bool {
    style::fill_view(a.fill) == style::fill_view(b.fill) && style::stroke_view(a.stroke)
        == style::stroke_view(b.stroke) && a.font == b.font && a.transform == b.transform
        && a.alpha == b.alpha && copy::same_clips(a.clip, b.clip) && a.name == b.name && a.z_index
        == b.z_index
}

/// The color of the first stop.
pub open spec fn first_stop(stops: Seq<GradientStop>) -> Option<Color> {
    if stops.len() > 0 {
        Some(stops[0].color)
    } else {
        None
    }
}

/// The one color of a fill, where it has one: of a gradient that of its first stop.
pub open spec fn leading_color(fill: Option<FillView>) -> Option<Color> {
    match fill {
        Some(FillView::Solid(c)) => Some(c),
        Some(FillView::Linear { start, end, stops }) => first_stop(stops),
        Some(FillView::Radial { center, radius, stops }) => first_stop(stops),
        Some(FillView::Sketch(f)) => Some(f.color),
        None => None,
    }
}

fn first_stop_color(stops: &Vec<GradientStop>) -> (r: Option<Color>)
    ensures
        r == first_stop(stops@),
{
    if stops.len() > 0 {
        Some(stops[0].color)
    } else {
        None
    }
}

/// Points from pairs of coordinates.
pub open spec fn points_of(pairs: Seq<(Scalar, Scalar)>) -> Seq<Point> {
    Seq::new(pairs.len(), |i: int| Point { x: pairs[i].0, y: pairs[i].1 })
}

fn to_points(pairs: &[(Scalar, Scalar)]) -> (r: Vec<Point>)
    ensures
        r@ == points_of(pairs@),
{
    let mut r: Vec<Point> = Vec::new();
    let mut i: usize = 0;
    while i < pairs.len()
        invariant
            i <= pairs@.len(),
            r@ == points_of(pairs@).take(i as int),
        decreases pairs.len() - i,
    {
        let (x, y) = pairs[i];
        r.push(Point { x, y });
        i += 1;
        assert(r@ =~= points_of(pairs@).take(i as int));
    }
    assert(r@ =~= points_of(pairs@));
    r
}

/// A rectangle with a given corner and extent.
pub open spec fn box_at(x: Scalar, y: Scalar, w: Scalar, h: Scalar) -> Rect {
    Rect { x0: x, y0: y, x1: x.sum(w), y1: y.sum(h) }
}

fn box_of(x: Scalar, y: Scalar, w: Scalar, h: Scalar) -> (r: Rect)
    ensures
        r == box_at(x, y, w, h),
{
    Rect { x0: x, y0: y, x1: x.add(w), y1: y.add(h) }
}

impl Default for Ctx {
    fn default() -> (r: Ctx)
        ensures
            r.is_plain(),
    {
        Ctx::new()
    }
}

impl Ctx {
    /// A black fill, no stroke, and plain black text of size 12.
    pub open spec fn is_plain(self) -> bool {
        let black = Color { r: 0, g: 0, b: 0, a: 255 };
        &&& self.fill == Some(Fill::Solid(black))
        &&& self.stroke is None
        &&& self.font.is_plain()
        &&& self.transform is None
        &&& self.alpha.bits == ONE_BITS
        &&& self.clip is None
        &&& self.name is None
        &&& self.z_index == 0
    }

    /// The opacity of a node: 1 where the alpha is 1 up to rounding.
    pub open spec fn node_opacity(self) -> Scalar {
        if (Scalar { bits: EPSILON_BITS }).less(
            self.alpha.difference(Scalar { bits: ONE_BITS }).absolute(),
        ) {
            self.alpha.clamped(Scalar { bits: 0 }, Scalar { bits: ONE_BITS })
        } else {
            Scalar { bits: ONE_BITS }
        }
    }

    /// The node carries what applies to the nodes of this context.
    pub open spec fn dresses(self, n: SceneNode) -> bool {
        &&& n.transform == self.transform
        &&& n.opacity == self.node_opacity()
        &&& copy::same_clips(n.clip, self.clip)
        &&& n.name == self.name
        &&& n.z_index == self.z_index
        &&& n.visible
    }

    /// The color of shapes: that of the fill, else that of the font.
    pub open spec fn shape_color(self) -> Color {
        match leading_color(style::fill_view(self.fill)) {
            Some(c) => c,
            None => self.font.color,
        }
    }

    /// The stroke, or a thin one in the color of shapes.
    pub open spec fn pen(self) -> StrokeView {
        match self.stroke {
            Some(s) => s@,
            None => style::plain_stroke(self.shape_color(), Scalar { bits: ONE_BITS }),
        }
    }

    /// The fill and the stroke.
    pub open spec fn both(self) -> StyleView {
        StyleView { fill: style::fill_view(self.fill), stroke: style::stroke_view(self.stroke) }
    }

    /// The fill alone.
    pub open spec fn filling(self) -> StyleView {
        StyleView { fill: style::fill_view(self.fill), stroke: None }
    }

    /// The stroke alone.
    pub open spec fn stroking(self) -> StyleView {
        StyleView { fill: None, stroke: Some(self.pen()) }
    }

    /// A black fill, no stroke, and plain black text of size 12.
    pub fn new() -> (r: Ctx)
        ensures
            r.is_plain(),
    {
        let black = Color::black();
        Ctx {
            fill: Some(Fill::Solid(black)),
            stroke: None,
            font: TextStyle::plain(),
            transform: None,
            alpha: Scalar { bits: ONE_BITS },
            clip: None,
            name: None,
            z_index: 0,
        }
    }

    /// Sets the fill color.
    pub fn with_fill(self, color: Color) -> (r: Ctx)
        ensures
            r == (Ctx { fill: Some(Fill::Solid(color)), ..self }),
    {
        Ctx { fill: Some(Fill::Solid(color)), ..self }
    }

    /// Sets a gradient as the fill.
    pub fn with_fill_gradient(self, gradient: Fill) -> (r: Ctx)
        ensures
            r == (Ctx { fill: Some(gradient), ..self }),
    {
        Ctx { fill: Some(gradient), ..self }
    }

    /// Removes the fill.
    pub fn without_fill(self) -> (r: Ctx)
        ensures
            r == (Ctx { fill: None, ..self }),
    {
        Ctx { fill: None, ..self }
    }

    /// Sets the stroke.
    pub fn with_stroke(self, stroke: Stroke) -> (r: Ctx)
        ensures
            r == (Ctx { stroke: Some(stroke), ..self }),
    {
        Ctx { stroke: Some(stroke), ..self }
    }

    /// Removes the stroke.
    pub fn without_stroke(self) -> (r: Ctx)
        ensures
            r == (Ctx { stroke: None, ..self }),
    {
        Ctx { stroke: None, ..self }
    }

    /// Sets the text style.
    pub fn with_font(self, font: TextStyle) -> (r: Ctx)
        ensures
            r == (Ctx { font: font, ..self }),
    {
        Ctx { font: font, ..self }
    }

    /// Sets the text color.
    pub fn with_text_color(self, color: Color) -> (r: Ctx)
        ensures
            r == (Ctx { font: TextStyle { color, ..self.font }, ..self }),
    {
        Ctx { font: TextStyle { color, ..self.font }, ..self }
    }

    /// Sets the horizontal anchor of text.
    pub fn with_text_align(self, align: TextAlign) -> (r: Ctx)
        ensures
            r == (Ctx { font: TextStyle { align, ..self.font }, ..self }),
    {
        Ctx { font: TextStyle { align, ..self.font }, ..self }
    }

    /// Sets the vertical anchor of text.
    pub fn with_text_baseline(self, baseline: TextBaseline) -> (r: Ctx)
        ensures
            r == (Ctx { font: TextStyle { baseline, ..self.font }, ..self }),
    {
        Ctx { font: TextStyle { baseline, ..self.font }, ..self }
    }

    /// Sets the width at which text wraps.
    pub fn with_max_width(self, max_width: Scalar) -> (r: Ctx)
        ensures
            r == (Ctx { font: TextStyle { max_width: Some(max_width), ..self.font }, ..self }),
    {
        Ctx { font: TextStyle { max_width: Some(max_width), ..self.font }, ..self }
    }

    /// Removes the width at which text wraps.
    pub fn without_max_width(self) -> (r: Ctx)
        ensures
            r == (Ctx { font: TextStyle { max_width: None, ..self.font }, ..self }),
    {
        Ctx { font: TextStyle { max_width: None, ..self.font }, ..self }
    }

    /// Sets the transform.
    pub fn with_transform(self, t: Transform) -> (r: Ctx)
        ensures
            r == (Ctx { transform: Some(t), ..self }),
    {
        Ctx { transform: Some(t), ..self }
    }

    /// Sets the opacity, held between 0 and 1.
    pub fn with_alpha(self, alpha: Scalar) -> (r: Ctx)
        ensures
            r == (Ctx {
                alpha: alpha.clamped(Scalar { bits: 0 }, Scalar { bits: ONE_BITS }),
                ..self
            }),
    {
        Ctx { alpha: alpha.clamp(Scalar { bits: 0 }, Scalar { bits: ONE_BITS }), ..self }
    }

    /// Sets the clip shape.
    pub fn with_clip(self, clip: Clip) -> (r: Ctx)
        ensures
            r == (Ctx { clip: Some(clip), ..self }),
    {
        Ctx { clip: Some(clip), ..self }
    }

    /// Sets the name.
    pub fn with_name(self, name: String) -> (r: Ctx)
        ensures
            r == (Ctx { name: Some(name), ..self }),
    {
        Ctx { name: Some(name), ..self }
    }

    /// Sets the drawing order.
    pub fn with_z(self, z: i32) -> (r: Ctx)
        ensures
            r == (Ctx { z_index: z, ..self }),
    {
        Ctx { z_index: z, ..self }
    }

    /// Sets the color and the width of the stroke, and keeps the rest of it.
    pub fn with_line(self, color: Color, width: Scalar) -> (r: Ctx)
        ensures
            r == (Ctx { stroke: r.stroke, ..self }),
            style::stroke_view(r.stroke) == Some(
                match self.stroke {
                    Some(s) => StrokeView { color, width, ..s@ },
                    None => style::plain_stroke(color, width),
                },
            ),
    {
        match self.stroke {
            Some(s) => Ctx { stroke: Some(Stroke { color, width, ..s }), ..self },
            None => Ctx { stroke: Some(Stroke::new(color, width)), ..self },
        }
    }

    /// Sets the width of the stroke.
    pub fn with_line_width(self, width: Scalar) -> (r: Ctx)
        ensures
            r == (Ctx { stroke: r.stroke, ..self }),
            style::stroke_view(r.stroke) == Some(StrokeView { width, ..self.pen() }),
    {
        let s = self.stroke_or_default();
        Ctx { stroke: Some(Stroke { width, ..s }), ..self }
    }

    /// Sets how lines end.
    pub fn with_line_cap(self, cap: LineCap) -> (r: Ctx)
        ensures
            r == (Ctx { stroke: r.stroke, ..self }),
            style::stroke_view(r.stroke) == Some(StrokeView { line_cap: cap, ..self.pen() }),
    {
        let s = self.stroke_or_default();
        Ctx { stroke: Some(Stroke { line_cap: cap, ..s }), ..self }
    }

    /// Sets how lines meet.
    pub fn with_line_join(self, join: LineJoin) -> (r: Ctx)
        ensures
            r == (Ctx { stroke: r.stroke, ..self }),
            style::stroke_view(r.stroke) == Some(StrokeView { line_join: join, ..self.pen() }),
    {
        let s = self.stroke_or_default();
        Ctx { stroke: Some(Stroke { line_join: join, ..s }), ..self }
    }

    /// Sets the miter limit.
    pub fn with_miter_limit(self, limit: Scalar) -> (r: Ctx)
        ensures
            r == (Ctx { stroke: r.stroke, ..self }),
            style::stroke_view(r.stroke) == Some(StrokeView { miter_limit: limit, ..self.pen() }),
    {
        let s = self.stroke_or_default();
        Ctx { stroke: Some(Stroke { miter_limit: limit, ..s }), ..self }
    }

    /// Sets the dashes; an empty pattern is a solid line.
    pub fn with_dash(self, pattern: Vec<Scalar>, offset: Scalar) -> (r: Ctx)
        ensures
            r == (Ctx { stroke: r.stroke, ..self }),
            style::stroke_view(r.stroke) == Some(
                StrokeView { dash_array: pattern@, dash_offset: offset, ..self.pen() },
            ),
    {
        let s = self.stroke_or_default();
        Ctx { stroke: Some(Stroke { dash_array: pattern, dash_offset: offset, ..s }), ..self }
    }

    /// Adds a translation. It is applied before the transform so far.
    pub fn translate(self, x: Scalar, y: Scalar) -> (r: Ctx)
        ensures
            r == (Ctx { transform: r.transform, ..self }),
            r.transform matches Some(t) && t == composed(self.transform, translation(x, y)),
    {
        let t = Transform::translate(x, y);
        assert(t == translation(x, y));
        Ctx { transform: Some(compose(&self.transform, t)), ..self }
    }

    /// Adds a rotation by the angle with the given sine and cosine. It is applied before the
    /// transform so far.
    pub fn rotate(self, sin: Scalar, cos: Scalar) -> (r: Ctx)
        ensures
            r == (Ctx { transform: r.transform, ..self }),
            r.transform matches Some(t) && t == composed(self.transform, rotation(sin, cos)),
    {
        let t = Transform::rotate(sin, cos);
        assert(t == rotation(sin, cos));
        Ctx { transform: Some(compose(&self.transform, t)), ..self }
    }

    /// Adds a uniform scaling. It is applied before the transform so far.
    pub fn scale(self, s: Scalar) -> (r: Ctx)
        ensures
            r == (Ctx { transform: r.transform, ..self }),
            r.transform matches Some(t) && t == composed(self.transform, scaling(s)),
    {
        let t = Transform::scale(s);
        assert(t == scaling(s));
        Ctx { transform: Some(compose(&self.transform, t)), ..self }
    }

    /// The color of shapes.
    fn shape_fill(&self) -> (c: Color)
        ensures
            c == self.shape_color(),
    {
        let c = match &self.fill {
            Some(Fill::Solid(c)) => Some(*c),
            Some(Fill::LinearGradient(g)) => first_stop_color(&g.stops),
            Some(Fill::RadialGradient(g)) => first_stop_color(&g.stops),
            Some(Fill::Sketch(f)) => Some(f.color),
            None => None,
        };
        match c {
            Some(c) => c,
            None => self.font.color,
        }
    }

    fn fill_stroke(&self) -> (s: FillStrokeStyle)
        ensures
            s@ == self.both(),
    {
        FillStrokeStyle {
            fill: style::copy_fill(&self.fill),
            stroke: style::copy_stroke(&self.stroke),
        }
    }

    fn fill_only(&self) -> (s: FillStrokeStyle)
        ensures
            s@ == self.filling(),
    {
        FillStrokeStyle { fill: style::copy_fill(&self.fill), stroke: None }
    }

    fn stroke_only(&self) -> (s: FillStrokeStyle)
        ensures
            s@ == self.stroking(),
    {
        FillStrokeStyle { fill: None, stroke: Some(self.stroke_or_default()) }
    }

    fn stroke_or_default(&self) -> (s: Stroke)
        ensures
            s@ == self.pen(),
    {
        match &self.stroke {
            Some(s) => s.clone(),
            None => Stroke::new(self.shape_fill(), Scalar { bits: ONE_BITS }),
        }
    }

    /// A node of this context.
    pub fn node(&self, element: Element) -> (n: SceneNode)
        ensures
            n.element == element,
            self.dresses(n),
    {
        let mut n = SceneNode::new(element);
        if let Some(t) = self.transform {
            n = n.with_transform(t);
        }
        if (Scalar { bits: EPSILON_BITS }).lt(self.alpha.sub(Scalar { bits: ONE_BITS }).abs()) {
            n = n.with_opacity(self.alpha);
        }
        if let Some(c) = &self.clip {
            n = n.with_clip(c.clone());
        }
        if let Some(name) = &self.name {
            n = n.with_name(name.clone());
        }
        if self.z_index != 0 {
            n = n.with_z(self.z_index);
        }
        n
    }

    /// Text with its anchor at a point; `layout` is its layout, if it was laid out.
    pub fn fill_text(
        &self,
        x: Scalar,
        y: Scalar,
        text: String,
        layout: Option<Arc<TextLayout>>,
    ) -> (n:
        SceneNode)
        ensures
            self.dresses(n),
            n.element matches Element::Text { spans, position, style, layout: l } && {
                &&& spans@ == seq![RichSpan { text, style: self.font }]
                &&& position == (Point { x, y })
                &&& style == self.font
                &&& l == scene::kept_layout(spans@, layout)
            },
    {
        self.node(Element::text(text, Point { x, y }, self.font.clone(), layout))
    }

    /// Text that wraps at a width; `layout` is its layout, if it was laid out.
    pub fn fill_text_max_width(
        &self,
        x: Scalar,
        y: Scalar,
        text: String,
        max_width: Scalar,
        layout: Option<Arc<TextLayout>>,
    ) -> (n: SceneNode)
        ensures
            self.dresses(n),
            n.element matches Element::Text { spans, position, style, layout: l } && {
                &&& style == (TextStyle { max_width: Some(max_width), ..self.font })
                &&& spans@ == seq![RichSpan { text, style }]
                &&& position == (Point { x, y })
                &&& l == scene::kept_layout(spans@, layout)
            },
    {
        let style = TextStyle { max_width: Some(max_width), ..self.font.clone() };
        self.node(Element::text(text, Point { x, y }, style, layout))
    }

    /// Text of styled spans; `layout` is its layout, if it was laid out.
    pub fn fill_rich_text(
        &self,
        x: Scalar,
        y: Scalar,
        spans: Vec<RichSpan>,
        layout: Option<Arc<TextLayout>>,
    ) -> (n: SceneNode)
        ensures
            self.dresses(n),
            n.element == (Element::Text {
                spans,
                position: Point { x, y },
                style: self.font,
                layout: scene::kept_layout(spans@, layout),
            }),
    {
        self.node(Element::rich_text(spans, Point { x, y }, self.font.clone(), layout))
    }

    /// An image in a rectangle, with the opacity of the context.
    pub fn draw_image(&self, image: SceneImage, x: Scalar, y: Scalar, w: Scalar, h: Scalar) -> (n:
        SceneNode)
        ensures
            self.dresses(n),
            n.element == (Element::Image {
                image,
                frame: box_at(x, y, w, h),
                opacity: self.alpha,
            }),
    {
        self.node(Element::Image { image, frame: box_of(x, y, w, h), opacity: self.alpha })
    }

    /// An image in its own size.
    pub fn draw_image_at_size(&self, image: SceneImage, x: Scalar, y: Scalar) -> (n: SceneNode)
        ensures
            self.dresses(n),
            n.element == (Element::Image {
                image,
                frame: box_at(
                    x,
                    y,
                    Scalar::integer(image.pixmap.columns() as nat),
                    Scalar::integer(image.pixmap.rows() as nat),
                ),
                opacity: self.alpha,
            }),
    {
        let w = Scalar::from_u64(image.width() as u64);
        let h = Scalar::from_u64(image.height() as u64);
        self.draw_image(image, x, y, w, h)
    }

    /// A filled rectangle.
    pub fn fill_rect(&self, x: Scalar, y: Scalar, w: Scalar, h: Scalar) -> (n: SceneNode)
        ensures
            self.dresses(n),
            n.element matches Element::Rect { rect: area, style: s }
                && area == box_at(x, y, w, h)
                && s@ == self.filling(),
    {
        self.node(Element::Rect { rect: box_of(x, y, w, h), style: self.fill_only() })
    }

    /// An outlined rectangle.
    pub fn stroke_rect(&self, x: Scalar, y: Scalar, w: Scalar, h: Scalar) -> (n: SceneNode)
        ensures
            self.dresses(n),
            n.element matches Element::Rect { rect: area, style: s }
                && area == box_at(x, y, w, h)
                && s@ == self.stroking(),
    {
        self.node(Element::Rect { rect: box_of(x, y, w, h), style: self.stroke_only() })
    }

    /// A filled and outlined rectangle.
    pub fn fill_stroke_rect(&self, x: Scalar, y: Scalar, w: Scalar, h: Scalar) -> (n: SceneNode)
        ensures
            self.dresses(n),
            n.element matches Element::Rect { rect: area, style: s }
                && area == box_at(x, y, w, h)
                && s@ == self.both(),
    {
        self.node(Element::Rect { rect: box_of(x, y, w, h), style: self.fill_stroke() })
    }

    /// A rounded rectangle.
    pub fn round_rect(
        &self,
        x: Scalar,
        y: Scalar,
        w: Scalar,
        h: Scalar,
        radius: Scalar,
    ) -> (n: SceneNode)
        ensures
            self.dresses(n),
            n.element matches Element::RoundedRect { rect: area, radius: k, style: s }
                && area == box_at(x, y, w, h)
                && k == radius
                && s@ == self.both(),
    {
        self.node(Element::RoundedRect {
            rect: box_of(x, y, w, h),
            radius,
            style: self.fill_stroke(),
        })
    }

    /// A filled circle.
    pub fn fill_circle(&self, x: Scalar, y: Scalar, r: Scalar) -> (n: SceneNode)
        ensures
            self.dresses(n),
            n.element matches Element::Circle { center: c, radius: k, style: s }
                && c == (Point { x, y })
                && k == r
                && s@ == self.filling(),
    {
        self.node(Element::Circle { center: Point { x, y }, radius: r, style: self.fill_only() })
    }

    /// An outlined circle.
    pub fn stroke_circle(&self, x: Scalar, y: Scalar, r: Scalar) -> (n: SceneNode)
        ensures
            self.dresses(n),
            n.element matches Element::Circle { center: c, radius: k, style: s }
                && c == (Point { x, y })
                && k == r
                && s@ == self.stroking(),
    {
        self.node(Element::Circle {
            center: Point { x, y },
            radius: r,
            style: self.stroke_only(),
        })
    }

    /// An ellipse, turned about its center.
    pub fn fill_ellipse(
        &self,
        x: Scalar,
        y: Scalar,
        rx: Scalar,
        ry: Scalar,
        rotation: Scalar,
    ) -> (n: SceneNode)
        ensures
            self.dresses(n),
            n.element matches Element::Ellipse { center: c, radii: k, rotation: t, style: s }
                && c == (Point { x, y })
                && k == (Vec2 { x: rx, y: ry })
                && t == rotation
                && s@ == self.both(),
    {
        self.node(Element::Ellipse {
            center: Point { x, y },
            radii: Vec2 { x: rx, y: ry },
            rotation,
            style: self.fill_stroke(),
        })
    }

    /// A sector.
    pub fn pie(
        &self,
        cx: Scalar,
        cy: Scalar,
        r: Scalar,
        start_angle: Scalar,
        sweep_angle: Scalar,
    ) -> (n: SceneNode)
        ensures
            self.dresses(n),
            n.element matches Element::Pie { center: c, radius: k, start_angle: from, sweep_angle: by, style: s }
                && c == (Point { x: cx, y: cy })
                && k == r
                && from == start_angle
                && by == sweep_angle
                && s@ == self.both(),
    {
        self.node(Element::Pie {
            center: Point { x: cx, y: cy },
            radius: r,
            start_angle,
            sweep_angle,
            style: self.fill_stroke(),
        })
    }

    /// An open arc.
    pub fn arc(
        &self,
        cx: Scalar,
        cy: Scalar,
        rx: Scalar,
        ry: Scalar,
        start_angle: Scalar,
        sweep_angle: Scalar,
    ) -> (n: SceneNode)
        ensures
            self.dresses(n),
            n.element matches Element::Arc { center: c, radii: k, start_angle: from, sweep_angle: by, style: s }
                && c == (Point { x: cx, y: cy })
                && k == (Vec2 { x: rx, y: ry })
                && from == start_angle
                && by == sweep_angle
                && s@ == self.pen(),
    {
        self.node(Element::Arc {
            center: Point { x: cx, y: cy },
            radii: Vec2 { x: rx, y: ry },
            start_angle,
            sweep_angle,
            style: self.stroke_or_default(),
        })
    }

    /// A line.
    pub fn line(&self, x0: Scalar, y0: Scalar, x1: Scalar, y1: Scalar) -> (n: SceneNode)
        ensures
            self.dresses(n),
            n.element matches Element::Line { start: a, end: b, style: s }
                && a == (Point { x: x0, y: y0 })
                && b == (Point { x: x1, y: y1 })
                && s@ == self.pen(),
    {
        self.node(Element::Line {
            start: Point { x: x0, y: y0 },
            end: Point { x: x1, y: y1 },
            style: self.stroke_or_default(),
        })
    }

    /// Connected lines.
    pub fn polyline(&self, pts: &[(Scalar, Scalar)]) -> (n: SceneNode)
        ensures
            self.dresses(n),
            n.element matches Element::Polyline { points: p, style: s }
                && p@ == points_of(pts@)
                && s@ == self.pen(),
    {
        self.node(Element::Polyline { points: to_points(pts), style: self.stroke_or_default() })
    }

    /// A polygon.
    pub fn polygon(&self, pts: &[(Scalar, Scalar)]) -> (n: SceneNode)
        ensures
            self.dresses(n),
            n.element matches Element::Polygon { points: p, style: s }
                && p@ == points_of(pts@)
                && s@ == self.both(),
    {
        self.node(Element::Polygon { points: to_points(pts), style: self.fill_stroke() })
    }

    /// A filled path; it counts as closed.
    pub fn fill(&self, path: &Path2D) -> (n: SceneNode)
        ensures
            self.dresses(n),
            n.element matches Element::Path { path: p, closed: e, style: s }
                && p@ == path@.els
                && e
                && s@ == self.filling(),
    {
        self.node(Element::Path { path: path.path.clone(), closed: true, style: self.fill_only() })
    }

    /// An outlined path.
    pub fn stroke(&self, path: &Path2D) -> (n: SceneNode)
        ensures
            self.dresses(n),
            n.element matches Element::Path { path: p, closed: e, style: s }
                && p@ == path@.els
                && e == path@.closed
                && s@ == self.stroking(),
    {
        self.node(Element::Path {
            path: path.path.clone(),
            closed: path.closed,
            style: self.stroke_only(),
        })
    }

    /// A filled and outlined path.
    pub fn fill_stroke_path(&self, path: &Path2D) -> (n: SceneNode)
        ensures
            self.dresses(n),
            n.element matches Element::Path { path: p, closed: e, style: s }
                && p@ == path@.els
                && e == path@.closed
                && s@ == self.both(),
    {
        self.node(Element::Path {
            path: path.path.clone(),
            closed: path.closed,
            style: self.fill_stroke(),
        })
    }

    /// A path.
    pub fn path(&self, path: BezPath, closed: bool) -> (n: SceneNode)
        ensures
            self.dresses(n),
            n.element matches Element::Path { path: p, closed: e, style: s }
                && p == path
                && e == closed
                && s@ == self.both(),
    {
        self.node(Element::Path { path: path, closed: closed, style: self.fill_stroke() })
    }

    /// A path filled with a gradient.
    pub fn gradient_path(&self, path: BezPath, gradient: LinearGradient) -> (n: SceneNode)
        ensures
            self.dresses(n),
            n.element matches Element::GradientPath { path: p, gradient: g, stroke: s } && p == path
                && g == gradient && style::stroke_view(s) == style::stroke_view(self.stroke),
    {
        self.node(
            Element::GradientPath { path, gradient, stroke: style::copy_stroke(&self.stroke) },
        )
    }

    /// A group of nodes.
    pub fn group(&self, children: Vec<SceneNode>) -> (n: SceneNode)
        ensures
            self.dresses(n),
            n.element == (Element::Group { children }),
    {
        self.node(Element::Group { children })
    }

    /// An empty layer with the transform and the opacity of the context.
    pub fn layer(&self, name: String) -> (l: Layer)
        ensures
            l.name == name,
            l.visible,
            l.transform == self.transform,
            l.opacity == self.node_opacity(),
            l.nodes@ == Seq::<SceneNode>::empty(),
    {
        let mut l = Layer::new(name);
        if let Some(t) = self.transform {
            l = l.with_transform(t);
        }
        if (Scalar { bits: EPSILON_BITS }).lt(self.alpha.sub(Scalar { bits: ONE_BITS }).abs()) {
            l = l.with_opacity(self.alpha);
        }
        l
    }
}

/// A translation.
pub open spec fn translation(x: Scalar, y: Scalar) -> Transform {
    let one = Scalar { bits: ONE_BITS };
    let zero = Scalar { bits: 0 };
    Transform { a: one, b: zero, c: zero, d: one, e: x, f: y }
}

/// A rotation.
pub open spec fn rotation(sin: Scalar, cos: Scalar) -> Transform {
    let zero = Scalar { bits: 0 };
    Transform { a: cos, b: sin, c: sin.negated(), d: cos, e: zero, f: zero }
}

/// A uniform scaling.
pub open spec fn scaling(s: Scalar) -> Transform {
    let zero = Scalar { bits: 0 };
    Transform { a: s, b: zero, c: zero, d: s, e: zero, f: zero }
}

/// The transform so far, with another applied before it.
pub open spec fn composed(so_far: Option<Transform>, t: Transform) -> Transform {
    match so_far {
        Some(cur) => cur.after(t),
        None => t,
    }
}

fn compose(so_far: &Option<Transform>, t: Transform) -> (r: Transform)
    ensures
        r == composed(*so_far, t),
{
    match so_far {
        Some(cur) => Transform::compose(cur, &t),
        None => t,
    }
}

} // verus!
