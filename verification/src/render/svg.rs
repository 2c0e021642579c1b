//! The SVG backend.

use vstd::prelude::*;
use crate::digits;
use crate::geometry::{Color, Point, Rect, Transform, Vec2};
use crate::pixmap;
use crate::render;
use crate::render::encode;
use crate::render::markup;
use crate::render::shapes;
use crate::render::spans;
use crate::render::shapes::Outline;
use crate::render::{Op, RenderOp};
use crate::scalar::{Scalar, ONE_BITS};
use crate::scene::{Clip, Element, ObjectFit, Scene, SceneImage};
use crate::style;
use crate::style::{Fill, FillStrokeStyle, LinearGradient, Stroke, StrokeView, StyleView};
use crate::text::layout::{layout_metrics, TextLayout, TextMetrics};
use crate::text::style::{clone_text, RichSpan, TextStyle};

verus! {

/// The bit pattern of `1e-6`.
pub const OPAQUE_BITS: u64 = 0x3eb0_c6f7_a0b5_ed8d;

/// Accumulates an SVG document.
#[derive(Debug)]
pub struct SvgRenderer {
    /// What has been drawn.
    pub buf: String,
    /// Output size; taken from the scene where it is not positive.
    pub width: Scalar,
    pub height: Scalar,
    /// `None` takes the scene's.
    pub background: Option<Color>,
    /// The number of gradients defined so far.
    pub gradient_id: usize,
    /// The number of clip paths defined so far.
    pub clip_id: usize,
    pub title: Option<String>,
    pub description: Option<String>,
    /// `None` takes the scene's.
    pub scale: Option<Scalar>,
}

/// What a renderer has drawn.
#[verifier::ext_equal]
pub struct Output {
    pub text: Seq<char>,
    pub gradients: nat,
    pub clips: nat,
}

/// The output with more text.
pub open spec fn put(o: Output, text: Seq<char>) -> Output {
    Output { text: o.text + text, ..o }
}

/// A shape with a fill and a stroke, given its opening.
pub open spec fn shape_output(o: Output, head: Seq<char>, style: StyleView) -> Output {
    Output {
        text: o.text + markup::fill_defs(style.fill, o.gradients) + (head + markup::fill_attr(
            style.fill,
            o.gradients,
        ) + markup::optional_stroke_attr(style.stroke) + "/>\n"@),
        gradients: o.gradients + markup::fill_gradients(style.fill),
        clips: o.clips,
    }
}

/// A shape with a stroke alone, given its opening.
pub open spec fn stroke_output(o: Output, head: Seq<char>, stroke: StrokeView) -> Output {
    put(o, head + " fill=\"none\""@ + markup::stroke_attr(stroke) + "/>\n"@)
}

/// A closed path filled with a linear gradient.
pub open spec fn gradient_output(
    o: Output,
    data: Seq<char>,
    gradient: LinearGradient,
    stroke: Option<StrokeView>,
) -> Output {
    Output {
        text: o.text + markup::linear_defs(
            o.gradients,
            gradient.start,
            gradient.end,
            gradient.stops@,
        ) + ("<path d=\""@ + data + "\" fill=\"url(#grad"@ + digits::decimal(o.gradients)
            + ")\" "@ + markup::optional_stroke_attr(stroke) + "/>\n"@),
        gradients: o.gradients + 1,
        clips: o.clips,
    }
}

/// The metrics of an optional layout.
pub open spec fn metrics_of(layout: Option<&TextLayout>) -> Option<TextMetrics> {
    match layout {
        Some(l) => Some(l.metrics()),
        None => None,
    }
}

/// An image, given its encoded bitmap.
pub open spec fn image_markup(
    image: SceneImage,
    frame: Rect,
    opacity: Scalar,
    png: Seq<u8>,
) -> Seq<char> {
    let (w, h) = image_size(image, frame);
    "<image x=\""@ + frame.ordered().x0.fixed(2) + "\" y=\""@ + frame.ordered().y0.fixed(2)
        + "\" width=\""@ + w.fixed(2) + "\" height=\""@ + h.fixed(2)
        + "\" href=\"data:image/png;base64,"@ + encode::base64(png) + "\" preserveAspectRatio=\""@
        + image.aspect() + "\""@ + image_opacity(opacity) + "/>\n"@
}

/// The size at which an image is shown: its own where it is not scaled, else that of its frame.
pub open spec fn image_size(image: SceneImage, frame: Rect) -> (Scalar, Scalar) {
    if image.object_fit == ObjectFit::Original {
        (
            Scalar::integer(image.pixmap.columns() as nat),
            Scalar::integer(image.pixmap.rows() as nat),
        )
    } else {
        (frame.x1.difference(frame.x0), frame.y1.difference(frame.y0))
    }
}

/// The opacity attribute of an image; none where it is 1 up to rounding.
pub open spec fn image_opacity(opacity: Scalar) -> Seq<char> {
    if (Scalar { bits: OPAQUE_BITS }).less(
        opacity.difference(Scalar { bits: ONE_BITS }).absolute(),
    ) {
        " opacity=\""@ + opacity.fixed(3) + "\""@
    } else {
        Seq::empty()
    }
}

/// A file that holds the bitmap of an image.
pub open spec fn png_of(image: SceneImage, png: Seq<u8>) -> bool {
    image.pixmap.columns() <= 0x100_0000 ==> pixmap::decoded(png) == Some(
        (image.pixmap.columns(), image.pixmap.rows(), image.pixmap.rgba()),
    )
}

/// Opens a group with a transform.
pub open spec fn matrix_markup(t: Transform) -> Seq<char> {
    "<g transform=\"matrix("@ + t.a.fixed(6) + " "@ + t.b.fixed(6) + " "@ + t.c.fixed(6) + " "@
        + t.d.fixed(6) + " "@ + t.e.fixed(6) + " "@ + t.f.fixed(6) + ")\">"@
}

/// Opens a group with a name; without one where there is none.
pub open spec fn name_markup(name: Option<Seq<char>>) -> Seq<char> {
    match name {
        Some(id) => "<g id=\""@ + encode::escaped(id, true) + "\">"@,
        None => "<g>"@,
    }
}

/// Opens a group with an opacity.
pub open spec fn opacity_markup(opacity: Scalar) -> Seq<char> {
    "<g opacity=\""@ + opacity.fixed(3) + "\">"@
}

/// What is drawn of an element; `png` is the encoded bitmap of an image.
pub open spec fn element_output(o: Output, el: Element, outline: Outline, png: Seq<u8>) -> Output {
    match el {
        Element::Rect { rect, style } => shape_output(o, shapes::rect_head(rect), style@),
        Element::Circle { center, radius, style } => shape_output(
            o,
            shapes::circle_head(center, radius),
            style@,
        ),
        Element::Ellipse { center, radii, rotation, style } => shape_output(
            o,
            shapes::ellipse_head(center, radii, rotation),
            style@,
        ),
        Element::RoundedRect { rect, radius, style } => shape_output(
            o,
            shapes::rounded_rect_head(rect, radius),
            style@,
        ),
        Element::Line { start, end, style } => stroke_output(
            o,
            shapes::line_head(start, end),
            style@,
        ),
        Element::Polyline { points, style } => stroke_output(
            o,
            shapes::data_head("<polyline points=\""@, markup::point_list(points@)),
            style@,
        ),
        Element::Polygon { points, style } => shape_output(
            o,
            shapes::data_head("<polygon points=\""@, markup::point_list(points@)),
            style@,
        ),
        Element::Arc { center, radii, start_angle, sweep_angle, style } => stroke_output(
            o,
            shapes::data_head(
                "<path d=\""@,
                shapes::arc_path(center, radii, sweep_angle, false, outline.directions@),
            ),
            style@,
        ),
        Element::Pie { center, radius, start_angle, sweep_angle, style } => shape_output(
            o,
            shapes::data_head(
                "<path d=\""@,
                shapes::arc_path(
                    center,
                    Vec2 { x: radius, y: radius },
                    sweep_angle,
                    true,
                    outline.directions@,
                ),
            ),
            style@,
        ),
        Element::Path { path, style, closed } => shape_output(
            o,
            shapes::data_head("<path d=\""@, outline.data@),
            style@,
        ),
        Element::Image { image, frame, opacity } => put(
            o,
            image_markup(image, frame, opacity, png),
        ),
        Element::GradientPath { path, gradient, stroke } => gradient_output(
            o,
            outline.data@,
            gradient,
            style::stroke_view(stroke),
        ),
        Element::Text { spans, position, style, layout } => put(
            o,
            spans::text_markup(
                spans@,
                position,
                style,
                match layout {
                    Some(l) => Some(l.metrics()),
                    None => None,
                },
            ),
        ),
        Element::Group { children } => o,
    }
}

/// What is drawn by an operation.
pub open spec fn op_output(o: Output, op: Op, outline: Outline, png: Seq<u8>) -> Output {
    match op {
        Op::PushTransform(t) => put(o, matrix_markup(t)),
        Op::PushClip(c) => Output {
            text: o.text + shapes::clip_markup(o.clips, c, outline.data@),
            clips: o.clips + 1,
            ..o
        },
        Op::PushOpacity(v) => put(o, opacity_markup(v)),
        Op::PushName(n) => put(o, name_markup(Some(n))),
        Op::Draw(el) => element_output(o, el, outline, png),
        _ => put(o, "</g>"@),
    }
}

/// What is drawn by a list of operations.
pub open spec fn ops_output(
    o: Output,
    ops: Seq<Op>,
    outlines: Seq<Outline>,
    pngs: Seq<Seq<u8>>,
) -> Output
    decreases ops.len(),
{
    if ops.len() == 0 {
        o
    } else {
        let n = ops.len() - 1;
        op_output(ops_output(o, ops.drop_last(), outlines, pngs), ops[n], outlines[n], pngs[n])
    }
}

/// The operation can be drawn: an arc has its directions, and an image has pixels.
pub open spec fn drawable(op: Op, outline: Outline) -> bool {
    match op {
        Op::Draw(Element::Arc { center, radii, start_angle, sweep_angle, style }) =>
            outline.directions@.len() == shapes::arc_sweeps(sweep_angle).len() + 1,
        Op::Draw(Element::Pie { center, radius, start_angle, sweep_angle, style }) =>
            outline.directions@.len() == shapes::arc_sweeps(sweep_angle).len() + 1,
        Op::Draw(Element::Image { image, frame, opacity }) => image.pixmap.columns() > 0
            && image.pixmap.rows() > 0,
        _ => true,
    }
}

/// The bitmap that a file of an operation holds.
pub open spec fn op_png(op: Op, png: Seq<u8>) -> bool {
    match op {
        Op::Draw(Element::Image { image, frame, opacity }) => png_of(image, png),
        _ => true,
    }
}

/// The density at which a scene is drawn: that of the renderer, else that of the scene where it
/// is positive and finite, else 1.
pub open spec fn density(scale: Option<Scalar>, s: Scene) -> Scalar {
    match scale {
        Some(x) => x,
        None => if s.scale.finite() && (Scalar { bits: 0 }).less(s.scale) {
            s.scale
        } else {
            Scalar { bits: ONE_BITS }
        },
    }
}

/// The output size: that of the renderer where it is set, else the logical size times the
/// density.
pub open spec fn output_size(own: Scalar, logical: Scalar, density: Scalar) -> Scalar {
    if !own.nan() && !(Scalar { bits: 0 }).less(own) {
        logical.product(density)
    } else {
        own
    }
}

/// The value of an optional string.
pub open spec fn text_view(s: Option<String>) -> Option<Seq<char>> {
    match s {
        Some(s) => Some(s@),
        None => None,
    }
}

/// An optional element that holds text, on a line of its own.
pub open spec fn meta_markup(open: Seq<char>, s: Option<Seq<char>>, close: Seq<char>) -> Seq<char> {
    match s {
        Some(t) => open + encode::escaped(t, false) + close,
        None => Seq::empty(),
    }
}

/// The root element, opened.
pub open spec fn root_markup(width: Scalar, height: Scalar, scale: Scalar) -> Seq<char> {
    "<svg xmlns=\"http://www.w3.org/2000/svg\" width=\""@ + width.fixed(2) + "\" height=\""@
        + height.fixed(2) + "\" viewBox=\"0 0 "@ + width.quotient(scale).fixed(2) + " "@
        + height.quotient(scale).fixed(2) + "\">\n"@
}

/// The background, over all of the canvas.
pub open spec fn canvas_markup(width: Scalar, height: Scalar, color: Color) -> Seq<char> {
    "<rect x=\"0\" y=\"0\" width=\""@ + width.fixed(2) + "\" height=\""@ + height.fixed(2) + "\""@
        + markup::color_attr("fill"@, color) + "/>\n"@
}

fn root_svg(width: Scalar, height: Scalar, scale: Scalar) -> (r: String)
    ensures
        r@ == root_markup(width, height, scale),
{
    let mut r = markup::text("<svg xmlns=\"http://www.w3.org/2000/svg\" width=\"");
    width.push_fixed(&mut r, 2);
    r.append("\" height=\"");
    height.push_fixed(&mut r, 2);
    r.append("\" viewBox=\"0 0 ");
    width.div(scale).push_fixed(&mut r, 2);
    r.append(" ");
    height.div(scale).push_fixed(&mut r, 2);
    r.append("\">\n");
    r
}

fn canvas_svg(width: Scalar, height: Scalar, color: Color) -> (r: String)
    ensures
        r@ == canvas_markup(width, height, color),
{
    let mut r = markup::text("<rect x=\"0\" y=\"0\" width=\"");
    width.push_fixed(&mut r, 2);
    r.append("\" height=\"");
    height.push_fixed(&mut r, 2);
    r.append("\"");
    r.append(markup::color_attr_str("fill", color).as_str());
    r.append("/>\n");
    r
}

fn meta_svg(open: &str, s: &Option<String>, close: &str) -> (r: String)
    ensures
        r@ == meta_markup(open@, text_view(*s), close@),
{
    match s {
        Some(t) => {
            let mut r = markup::text(open);
            r.append(encode::escape_text(t.as_str()).as_str());
            r.append(close);
            r
        },
        None => {
            let r = String::new();
            assert(r@ =~= Seq::<char>::empty());
            r
        },
    }
}

impl SvgRenderer {
    /// What has been drawn so far.
    pub open spec fn output(self) -> Output {
        Output {
            text: self.buf@,
            gradients: self.gradient_id as nat,
            clips: self.clip_id as nat,
        }
    }

    /// The settings of the document are the same.
    pub open spec fn same_settings(self, other: SvgRenderer) -> bool {
        self.width == other.width && self.height == other.height && self.background
            == other.background && self.title == other.title && self.description
            == other.description && self.scale == other.scale
    }

    /// The complete document.
    pub open spec fn document(self) -> Seq<char> {
        let scale = match self.scale {
            Some(s) => s,
            None => Scalar { bits: ONE_BITS },
        };
        let background = match self.background {
            Some(c) => c,
            None => Color { r: 255, g: 255, b: 255, a: 255 },
        };
        root_markup(self.width, self.height, scale) + meta_markup(
            "<title>"@,
            text_view(self.title),
            "</title>\n"@,
        ) + meta_markup("<desc>"@, text_view(self.description), "</desc>\n"@) + canvas_markup(
            self.width.quotient(scale),
            self.height.quotient(scale),
            background,
        ) + self.buf@ + "</svg>\n"@
    }

    /// A renderer for a given output size; a size that is not positive is taken from the scene.
    pub fn new(width: Scalar, height: Scalar) -> (r: SvgRenderer)
        ensures
            r.output() == (Output { text: Seq::empty(), gradients: 0, clips: 0 }),
            r.width == width,
            r.height == height,
            r.background is None,
            r.title is None,
            r.description is None,
            r.scale is None,
    {
        let r = SvgRenderer {
            buf: String::new(),
            width,
            height,
            background: None,
            gradient_id: 0,
            clip_id: 0,
            title: None,
            description: None,
            scale: None,
        };
        assert(r.buf@ =~= Seq::<char>::empty());
        r
    }

    /// Sets the background color.
    pub fn with_background(self, bg: Color) -> (r: SvgRenderer)
        ensures
            r == (SvgRenderer { background: Some(bg), ..self }),
    {
        SvgRenderer { background: Some(bg), ..self }
    }

    /// Sets the density.
    pub fn with_scale(self, scale: Scalar) -> (r: SvgRenderer)
        ensures
            r == (SvgRenderer { scale: Some(scale), ..self }),
    {
        SvgRenderer { scale: Some(scale), ..self }
    }

    /// Sets the title of the document.
    pub fn with_title(self, title: String) -> (r: SvgRenderer)
        ensures
            r == (SvgRenderer { title: Some(title), ..self }),
    {
        SvgRenderer { title: Some(title), ..self }
    }

    /// Sets the description of the document.
    pub fn with_description(self, description: String) -> (r: SvgRenderer)
        ensures
            r == (SvgRenderer { description: Some(description), ..self }),
    {
        SvgRenderer { description: Some(description), ..self }
    }

    /// The complete document: the root element at the output size, whose view box is that size
    /// divided by the density, the background and what has been drawn.
    pub fn into_string(self) -> (out: String)
        ensures
            out@ == self.document(),
    {
        let scale = match self.scale {
            Some(s) => s,
            None => Scalar { bits: ONE_BITS },
        };
        let background = match self.background {
            Some(c) => c,
            None => Color { r: 255, g: 255, b: 255, a: 255 },
        };
        let mut out = root_svg(self.width, self.height, scale);
        out.append(meta_svg("<title>", &self.title, "</title>\n").as_str());
        out.append(meta_svg("<desc>", &self.description, "</desc>\n").as_str());
        out.append(
            canvas_svg(self.width.div(scale), self.height.div(scale), background).as_str(),
        );
        out.append(self.buf.as_str());
        out.append("</svg>\n");
        out
    }

    /// The number of the next gradient.
    pub fn next_gradient_id(&mut self) -> (id: usize)
        requires
            old(self).gradient_id < usize::MAX,
        ensures
            id == old(self).gradient_id,
            *final(self) == (SvgRenderer { gradient_id: (id + 1) as usize, ..*old(self) }),
    {
        let id: usize = self.gradient_id;
        self.gradient_id = id + 1;
        id
    }

    /// Defines the gradient of a fill, where it is one, and gives the fill attributes.
    fn apply_fill(&mut self, fill: &Option<Fill>) -> (attr: String)
        requires
            old(self).gradient_id < usize::MAX,
        ensures
            attr@ == markup::fill_attr(style::fill_view(*fill), old(self).output().gradients),
            final(self).output() == (Output {
                text: old(self).output().text + markup::fill_defs(
                    style::fill_view(*fill),
                    old(self).output().gradients,
                ),
                gradients: old(self).output().gradients + markup::fill_gradients(
                    style::fill_view(*fill),
                ),
                clips: old(self).output().clips,
            }),
            final(self).same_settings(*old(self)),
    {
        let ghost start = self.buf@;
        match fill {
            None => {
                assert(start + Seq::<char>::empty() =~= start);
                markup::text(" fill=\"none\"")
            },
            Some(Fill::Solid(c)) => {
                assert(start + Seq::<char>::empty() =~= start);
                markup::color_attr_str("fill", *c)
            },
            Some(Fill::LinearGradient(g)) => {
                let id: usize = self.next_gradient_id();
                self.buf.append(markup::linear_svg(id, g.start, g.end, &g.stops).as_str());
                gradient_ref(id)
            },
            Some(Fill::RadialGradient(g)) => {
                let id: usize = self.next_gradient_id();
                self.buf.append(markup::radial_svg(id, g.center, g.radius, &g.stops).as_str());
                gradient_ref(id)
            },
            Some(Fill::Sketch(f)) => {
                let id: usize = self.next_gradient_id();
                self.buf.append(markup::pattern_svg(id, f).as_str());
                gradient_ref(id)
            },
        }
    }

    /// Draws a shape, given its opening.
    fn finish_shape(&mut self, head: String, style: &FillStrokeStyle)
        requires
            old(self).gradient_id < usize::MAX,
        ensures
            final(self).output() == shape_output(old(self).output(), head@, style@),
            final(self).same_settings(*old(self)),
    {
        let mut el = head;
        let attr = self.apply_fill(&style.fill);
        el.append(attr.as_str());
        let ghost filled = el@;
        match &style.stroke {
            Some(s) => {
                el.append(markup::stroke_svg(s).as_str());
            },
            None => {
                assert(filled + Seq::<char>::empty() =~= filled);
            },
        }
        el.append("/>\n");
        self.buf.append(el.as_str());
    }

    /// Draws a shape with a stroke alone, given its opening.
    fn finish_stroke(&mut self, head: String, style: &Stroke)
        ensures
            final(self).output() == stroke_output(old(self).output(), head@, style@),
            final(self).same_settings(*old(self)),
    {
        let mut el = head;
        el.append(" fill=\"none\"");
        el.append(markup::stroke_svg(style).as_str());
        el.append("/>\n");
        self.buf.append(el.as_str());
    }

    /// Draws a rectangle.
    pub fn draw_rect(&mut self, rect: Rect, style: &FillStrokeStyle)
        requires
            old(self).gradient_id < usize::MAX,
        ensures
            final(self).output() == shape_output(
                old(self).output(),
                shapes::rect_head(rect),
                style@,
            ),
            final(self).same_settings(*old(self)),
    {
        self.finish_shape(shapes::rect_open(rect), style);
    }

    /// Draws a circle.
    pub fn draw_circle(&mut self, center: Point, radius: Scalar, style: &FillStrokeStyle)
        requires
            old(self).gradient_id < usize::MAX,
        ensures
            final(self).output() == shape_output(
                old(self).output(),
                shapes::circle_head(center, radius),
                style@,
            ),
            final(self).same_settings(*old(self)),
    {
        self.finish_shape(shapes::circle_open(center, radius), style);
    }

    /// Draws an ellipse, turned about its center.
    pub fn draw_ellipse(
        &mut self,
        center: Point,
        radii: Vec2,
        rotation: Scalar,
        style: &FillStrokeStyle,
    )
        requires
            old(self).gradient_id < usize::MAX,
        ensures
            final(self).output() == shape_output(
                old(self).output(),
                shapes::ellipse_head(center, radii, rotation),
                style@,
            ),
            final(self).same_settings(*old(self)),
    {
        self.finish_shape(shapes::ellipse_open(center, radii, rotation), style);
    }

    /// Draws a rounded rectangle.
    pub fn draw_rounded_rect(&mut self, rect: Rect, radius: Scalar, style: &FillStrokeStyle)
        requires
            old(self).gradient_id < usize::MAX,
        ensures
            final(self).output() == shape_output(
                old(self).output(),
                shapes::rounded_rect_head(rect, radius),
                style@,
            ),
            final(self).same_settings(*old(self)),
    {
        self.finish_shape(shapes::rounded_rect_open(rect, radius), style);
    }

    /// Draws a line.
    pub fn draw_line(&mut self, start: Point, end: Point, style: &Stroke)
        ensures
            final(self).output() == stroke_output(
                old(self).output(),
                shapes::line_head(start, end),
                style@,
            ),
            final(self).same_settings(*old(self)),
    {
        self.finish_stroke(shapes::line_open(start, end), style);
    }

    /// Draws connected lines.
    pub fn draw_polyline(&mut self, points: &Vec<Point>, style: &Stroke)
        ensures
            final(self).output() == stroke_output(
                old(self).output(),
                shapes::data_head("<polyline points=\""@, markup::point_list(points@)),
                style@,
            ),
            final(self).same_settings(*old(self)),
    {
        let data = markup::points_svg(points);
        self.finish_stroke(shapes::data_open("<polyline points=\"", data.as_str()), style);
    }

    /// Draws a polygon.
    pub fn draw_polygon(&mut self, points: &Vec<Point>, style: &FillStrokeStyle)
        requires
            old(self).gradient_id < usize::MAX,
        ensures
            final(self).output() == shape_output(
                old(self).output(),
                shapes::data_head("<polygon points=\""@, markup::point_list(points@)),
                style@,
            ),
            final(self).same_settings(*old(self)),
    {
        let data = markup::points_svg(points);
        self.finish_shape(shapes::data_open("<polygon points=\"", data.as_str()), style);
    }

    /// Draws an arc; `directions` are the cosines and sines of its angles.
    pub fn draw_arc(
        &mut self,
        center: Point,
        radii: Vec2,
        sweep_angle: Scalar,
        directions: &Vec<Vec2>,
        style: &Stroke,
    )
        requires
            directions@.len() == shapes::arc_sweeps(sweep_angle).len() + 1,
        ensures
            final(self).output() == stroke_output(
                old(self).output(),
                shapes::data_head(
                    "<path d=\""@,
                    shapes::arc_path(center, radii, sweep_angle, false, directions@),
                ),
                style@,
            ),
            final(self).same_settings(*old(self)),
    {
        self.finish_stroke(shapes::data_open(
                "<path d=\"",
                shapes::arc_path_d(center, radii, sweep_angle, false, directions).as_str(),
            ), style);
    }

    /// Draws a sector; `directions` are the cosines and sines of its angles.
    pub fn draw_pie(
        &mut self,
        center: Point,
        radius: Scalar,
        sweep_angle: Scalar,
        directions: &Vec<Vec2>,
        style: &FillStrokeStyle,
    )
        requires
            old(self).gradient_id < usize::MAX,
            directions@.len() == shapes::arc_sweeps(sweep_angle).len() + 1,
        ensures
            final(self).output() == shape_output(
                old(self).output(),
                shapes::data_head(
                    "<path d=\""@,
                    shapes::arc_path(
                        center,
                        Vec2 { x: radius, y: radius },
                        sweep_angle,
                        true,
                        directions@,
                    ),
                ),
                style@,
            ),
            final(self).same_settings(*old(self)),
    {
        self.finish_shape(shapes::data_open(
                "<path d=\"",
                shapes::arc_path_d(
                    center,
                    Vec2 { x: radius, y: radius },
                    sweep_angle,
                    true,
                    directions,
                ).as_str(),
            ), style);
    }

    /// Draws a path, given its data.
    pub fn draw_path(&mut self, data: &str, style: &FillStrokeStyle)
        requires
            old(self).gradient_id < usize::MAX,
        ensures
            final(self).output() == shape_output(
                old(self).output(),
                shapes::data_head("<path d=\""@, data@),
                style@,
            ),
            final(self).same_settings(*old(self)),
    {
        self.finish_shape(shapes::data_open("<path d=\"", data), style);
    }

    /// Draws a path filled with a linear gradient, given its data.
    pub fn draw_gradient_path(
        &mut self,
        data: &str,
        gradient: &LinearGradient,
        stroke: &Option<Stroke>,
    )
        requires
            old(self).gradient_id < usize::MAX,
        ensures
            final(self).output() == gradient_output(
                old(self).output(),
                data@,
                *gradient,
                style::stroke_view(*stroke),
            ),
            final(self).same_settings(*old(self)),
    {
        let id: usize = self.next_gradient_id();
        let mut el = markup::text("<path d=\"");
        el.append(data);
        el.append("\" fill=\"url(#grad");
        digits::push_decimal(&mut el, id as u128);
        el.append(")\" ");
        let ghost open = el@;
        match stroke {
            Some(s) => {
                el.append(markup::stroke_svg(s).as_str());
            },
            None => {
                assert(open + Seq::<char>::empty() =~= open);
            },
        }
        el.append("/>\n");
        self.buf.append(
            markup::linear_svg(id, gradient.start, gradient.end, &gradient.stops).as_str(),
        );
        self.buf.append(el.as_str());
    }

    /// Draws text; the layout, where there is one, gives its exact extent.
    pub fn draw_text(
        &mut self,
        spans: &Vec<RichSpan>,
        position: Point,
        style: &TextStyle,
        layout: Option<&TextLayout>,
    )
        ensures
            final(self).output() == put(
                old(self).output(),
                spans::text_markup(spans@, position, *style, metrics_of(layout)),
            ),
            final(self).same_settings(*old(self)),
    {
        let metrics = match layout {
            Some(l) => Some(layout_metrics(l)),
            None => None,
        };
        self.buf.append(spans::text_svg(spans, position, style, metrics).as_str());
    }

    /// Draws an image, given its encoded bitmap.
    pub fn draw_encoded_image(
        &mut self,
        image: &SceneImage,
        frame: Rect,
        opacity: Scalar,
        png: &Vec<u8>,
    )
        ensures
            final(self).output() == put(
                old(self).output(),
                image_markup(*image, frame, opacity, png@),
            ),
            final(self).same_settings(*old(self)),
    {
        let (w, h) = match image.object_fit {
            ObjectFit::Original => (
                Scalar::from_u64(image.width() as u64),
                Scalar::from_u64(image.height() as u64),
            ),
            _ => (frame.width(), frame.height()),
        };
        let op = if (Scalar { bits: OPAQUE_BITS }).lt(
            opacity.sub(Scalar { bits: ONE_BITS }).abs(),
        ) {
            let mut op = markup::text(" opacity=\"");
            opacity.push_fixed(&mut op, 3);
            op.append("\"");
            op
        } else {
            let op = String::new();
            assert(op@ =~= Seq::<char>::empty());
            op
        };
        let mut el = markup::text("<image x=\"");
        frame.min_x().push_fixed(&mut el, 2);
        el.append("\" y=\"");
        frame.min_y().push_fixed(&mut el, 2);
        el.append("\" width=\"");
        w.push_fixed(&mut el, 2);
        el.append("\" height=\"");
        h.push_fixed(&mut el, 2);
        el.append("\" href=\"data:image/png;base64,");
        el.append(encode::base64_encode(png.as_slice()).as_str());
        el.append("\" preserveAspectRatio=\"");
        el.append(image.preserve_aspect_ratio());
        el.append("\"");
        el.append(op.as_str());
        el.append("/>\n");
        self.buf.append(el.as_str());
    }

    /// Draws an image as an embedded file.
    ///
    /// Which of the files that hold the bitmap it is depends on the encoder.
    pub fn draw_image(&mut self, image: &SceneImage, frame: Rect, opacity: Scalar)
        requires
            image.pixmap.columns() > 0,
            image.pixmap.rows() > 0,
        ensures
            exists|png: Seq<u8>|
                png_of(*image, png) && final(self).output() == #[trigger] put(
                    old(self).output(),
                    image_markup(*image, frame, opacity, png),
                ),
            final(self).same_settings(*old(self)),
    {
        let png = image.pixmap.to_png();
        assert(png_of(*image, png@));
        self.draw_encoded_image(image, frame, opacity, &png);
    }

    /// Opens a group with a transform.
    pub fn push_transform(&mut self, t: Transform)
        ensures
            final(self).output() == put(old(self).output(), matrix_markup(t)),
            final(self).same_settings(*old(self)),
    {
        let mut m = markup::text("<g transform=\"matrix(");
        t.a.push_fixed(&mut m, 6);
        m.append(" ");
        t.b.push_fixed(&mut m, 6);
        m.append(" ");
        t.c.push_fixed(&mut m, 6);
        m.append(" ");
        t.d.push_fixed(&mut m, 6);
        m.append(" ");
        t.e.push_fixed(&mut m, 6);
        m.append(" ");
        t.f.push_fixed(&mut m, 6);
        m.append(")\">");
        self.buf.append(m.as_str());
    }

    pub fn pop_transform(&mut self)
        ensures
            final(self).output() == put(old(self).output(), "</g>"@),
            final(self).same_settings(*old(self)),
    {
        self.buf.append("</g>");
    }

    /// Opens a group with an opacity.
    pub fn push_opacity(&mut self, opacity: Scalar)
        ensures
            final(self).output() == put(old(self).output(), opacity_markup(opacity)),
            final(self).same_settings(*old(self)),
    {
        let mut m = markup::text("<g opacity=\"");
        opacity.push_fixed(&mut m, 3);
        m.append("\">");
        self.buf.append(m.as_str());
    }

    pub fn pop_opacity(&mut self)
        ensures
            final(self).output() == put(old(self).output(), "</g>"@),
            final(self).same_settings(*old(self)),
    {
        self.buf.append("</g>");
    }

    /// Opens a group with a name.
    pub fn push_name(&mut self, name: Option<&str>)
        ensures
            final(self).output() == put(
                old(self).output(),
                name_markup(
                    match name {
                        Some(n) => Some(n@),
                        None => None,
                    },
                ),
            ),
            final(self).same_settings(*old(self)),
    {
        match name {
            Some(id) => {
                let mut m = markup::text("<g id=\"");
                m.append(encode::escape_attr(id).as_str());
                m.append("\">");
                self.buf.append(m.as_str());
            },
            None => {
                self.buf.append("<g>");
            },
        }
    }

    pub fn pop_name(&mut self)
        ensures
            final(self).output() == put(old(self).output(), "</g>"@),
            final(self).same_settings(*old(self)),
    {
        self.buf.append("</g>");
    }

    /// Defines a clip path and opens a group that it clips; `data` is the data of a path.
    pub fn push_clip(&mut self, clip: &Clip, data: &str)
        requires
            old(self).clip_id < usize::MAX,
        ensures
            final(self).output() == (Output {
                text: old(self).output().text + shapes::clip_markup(
                    old(self).output().clips,
                    *clip,
                    data@,
                ),
                clips: old(self).output().clips + 1,
                ..old(self).output()
            }),
            final(self).same_settings(*old(self)),
    {
        let id: usize = self.clip_id;
        self.clip_id = id + 1;
        let mut m = markup::text("<defs><clipPath id=\"clip");
        digits::push_decimal(&mut m, id as u128);
        m.append("\">");
        m.append(shapes::clip_shape_svg(clip, data).as_str());
        m.append("</clipPath></defs><g clip-path=\"url(#clip");
        digits::push_decimal(&mut m, id as u128);
        m.append(")\">");
        self.buf.append(m.as_str());
    }

    pub fn pop_clip(&mut self)
        ensures
            final(self).output() == put(old(self).output(), "</g>"@),
            final(self).same_settings(*old(self)),
    {
        self.buf.append("</g>");
    }
}

impl SvgRenderer {
    /// Draws an element, given what is computed outside.
    pub fn draw_element(&mut self, el: &Element, outline: &Outline)
        requires
            drawable(Op::Draw(*el), *outline),
            old(self).gradient_id < usize::MAX,
        ensures
            exists|png: Seq<u8>|
                op_png(Op::Draw(*el), png) && final(self).output() == #[trigger] element_output(
                    old(self).output(),
                    *el,
                    *outline,
                    png,
                ),
            final(self).same_settings(*old(self)),
    {
        let ghost start = self.output();
        let ghost mut png: Seq<u8> = Seq::empty();
        match el {
            Element::Rect { rect, style } => self.draw_rect(*rect, style),
            Element::Circle { center, radius, style } => self.draw_circle(*center, *radius, style),
            Element::Ellipse { center, radii, rotation, style } => self.draw_ellipse(
                *center,
                *radii,
                *rotation,
                style,
            ),
            Element::RoundedRect { rect, radius, style } => self.draw_rounded_rect(
                *rect,
                *radius,
                style,
            ),
            Element::Line { start, end, style } => self.draw_line(*start, *end, style),
            Element::Polyline { points, style } => self.draw_polyline(points, style),
            Element::Polygon { points, style } => self.draw_polygon(points, style),
            Element::Arc { center, radii, start_angle: _, sweep_angle, style } => self.draw_arc(
                *center,
                *radii,
                *sweep_angle,
                &outline.directions,
                style,
            ),
            Element::Pie { center, radius, start_angle: _, sweep_angle, style } => self.draw_pie(
                *center,
                *radius,
                *sweep_angle,
                &outline.directions,
                style,
            ),
            Element::Path { path: _, style, closed: _ } => self.draw_path(
                outline.data.as_str(),
                style,
            ),
            Element::Image { image, frame, opacity } => {
                self.draw_image(image, *frame, *opacity);
                proof {
                    png = choose|png: Seq<u8>|
                        png_of(*image, png) && self.output() == #[trigger] put(
                            start,
                            image_markup(*image, *frame, *opacity, png),
                        );
                }
            },
            Element::GradientPath { path: _, gradient, stroke } => self.draw_gradient_path(
                outline.data.as_str(),
                gradient,
                stroke,
            ),
            Element::Text { spans, position, style, layout } => {
                match layout {
                    Some(l) => self.draw_text(spans, *position, style, Some(&**l)),
                    None => self.draw_text(spans, *position, style, None),
                }
            },
            Element::Group { children: _ } => {},
        }
        assert(op_png(Op::Draw(*el), png));
        assert(self.output() == element_output(start, *el, *outline, png));
    }

    /// Carries out an operation, given what is computed outside.
    pub fn draw_op(&mut self, op: &RenderOp<'_>, outline: &Outline)
        requires
            drawable(op@, *outline),
            old(self).gradient_id < usize::MAX,
            old(self).clip_id < usize::MAX,
        ensures
            exists|png: Seq<u8>|
                op_png(op@, png) && final(self).output() == #[trigger] op_output(
                    old(self).output(),
                    op@,
                    *outline,
                    png,
                ),
            final(self).same_settings(*old(self)),
    {
        let ghost start = self.output();
        let ghost mut png: Seq<u8> = Seq::empty();
        match op {
            RenderOp::PushTransform(t) => self.push_transform(*t),
            RenderOp::PopTransform => self.pop_transform(),
            RenderOp::PushClip(c) => self.push_clip(c, outline.data.as_str()),
            RenderOp::PopClip => self.pop_clip(),
            RenderOp::PushOpacity(o) => self.push_opacity(*o),
            RenderOp::PopOpacity => self.pop_opacity(),
            RenderOp::PushName(n) => self.push_name(Some(*n)),
            RenderOp::PopName => self.pop_name(),
            RenderOp::Draw(el) => {
                self.draw_element(el, outline);
                proof {
                    png = choose|png: Seq<u8>|
                        op_png(Op::Draw(**el), png) && self.output() == #[trigger] element_output(
                            start,
                            **el,
                            *outline,
                            png,
                        );
                }
            },
        }
        assert(op_png(op@, png));
        assert(self.output() == op_output(start, op@, *outline, png));
    }

    /// Carries out operations in order.
    pub fn draw_ops(&mut self, ops: &Vec<RenderOp<'_>>, outlines: &Vec<Outline>)
        requires
            ops@.len() == outlines@.len(),
            forall|i: int|
                0 <= i < ops@.len() ==> drawable(#[trigger] render::op_views(ops@)[i], outlines@[i]),
            old(self).gradient_id + ops@.len() <= usize::MAX,
            old(self).clip_id + ops@.len() <= usize::MAX,
        ensures
            exists|pngs: Seq<Seq<u8>>|
                pngs_of(render::op_views(ops@), pngs) && final(self).output()
                    == #[trigger] ops_output(
                    old(self).output(),
                    render::op_views(ops@),
                    outlines@,
                    pngs,
                ),
            final(self).same_settings(*old(self)),
    {
        let ghost start = self.output();
        let ghost before = *self;
        let ghost views = render::op_views(ops@);
        let ghost mut pngs: Seq<Seq<u8>> = Seq::empty();
        let mut i: usize = 0;
        while i < ops.len()
            invariant
                i <= ops@.len(),
                ops@.len() == outlines@.len(),
                views == render::op_views(ops@),
                forall|j: int|
                    0 <= j < ops@.len() ==> drawable(#[trigger] views[j], outlines@[j]),
                start == before.output(),
                before.gradient_id + ops@.len() <= usize::MAX,
                before.clip_id + ops@.len() <= usize::MAX,
                self.gradient_id <= before.gradient_id + i,
                self.clip_id <= before.clip_id + i,
                self.same_settings(before),
                pngs.len() == i,
                pngs_of(views.take(i as int), pngs),
                self.output() == ops_output(start, views.take(i as int), outlines@, pngs),
            decreases ops.len() - i,
        {
            let ghost here = self.output();
            assert(drawable(views[i as int], outlines@[i as int]));
            self.draw_op(&ops[i], &outlines[i]);
            proof {
                let op = views[i as int];
                let png = choose|png: Seq<u8>|
                    op_png(op, png) && self.output() == #[trigger] op_output(
                        here,
                        op,
                        outlines@[i as int],
                        png,
                    );
                let next = views.take(i + 1);
                assert(next.drop_last() =~= views.take(i as int));
                lemma_ops_output_prefix(start, views.take(i as int), outlines@, pngs, png);
                pngs = pngs.push(png);
            }
            i += 1;
        }
        assert(views.take(views.len() as int) =~= views);
    }

    /// Draws a scene, given what is computed outside for each of its operations.
    ///
    /// What is set on the renderer is kept; the rest is taken from the scene.
    pub fn render_scene(&mut self, s: &Scene, outlines: &Vec<Outline>)
        requires
            outlines@.len() == render::scene_ops(*s).len(),
            forall|i: int|
                0 <= i < outlines@.len() ==> drawable(
                    #[trigger] render::scene_ops(*s)[i],
                    outlines@[i],
                ),
            old(self).gradient_id + outlines@.len() <= usize::MAX,
            old(self).clip_id + outlines@.len() <= usize::MAX,
        ensures
            exists|pngs: Seq<Seq<u8>>|
                pngs_of(render::scene_ops(*s), pngs) && final(self).output()
                    == #[trigger] ops_output(
                    old(self).output(),
                    render::scene_ops(*s),
                    outlines@,
                    pngs,
                ),
            text_view(final(self).title) == (match old(self).title {
                Some(t) => Some(t@),
                None => text_view(s.title),
            }),
            text_view(final(self).description) == (match old(self).description {
                Some(t) => Some(t@),
                None => text_view(s.description),
            }),
            final(self).scale == Some(density(old(self).scale, *s)),
            final(self).background == (match old(self).background {
                Some(c) => Some(c),
                None => Some(s.background),
            }),
            final(self).width == output_size(
                old(self).width,
                s.width,
                density(old(self).scale, *s),
            ),
            final(self).height == output_size(
                old(self).height,
                s.height,
                density(old(self).scale, *s),
            ),
    {
        let ghost start = self.output();
        let zero = Scalar { bits: 0 };
        if self.title.is_none() {
            self.title = clone_text(&s.title);
        }
        if self.description.is_none() {
            self.description = clone_text(&s.description);
        }
        let scale = match self.scale {
            Some(x) => x,
            None => if s.scale.is_finite() && zero.lt(s.scale) {
                s.scale
            } else {
                Scalar { bits: ONE_BITS }
            },
        };
        self.scale = Some(scale);
        if self.background.is_none() {
            self.background = Some(s.background);
        }
        if !self.width.is_nan() && !zero.lt(self.width) {
            self.width = s.width.mul(scale);
        }
        if !self.height.is_nan() && !zero.lt(self.height) {
            self.height = s.height.mul(scale);
        }
        let ops = render::render_scene_ordered(s);
        assert(self.output() == start);
        assert(render::op_views(ops@).len() == ops@.len());
        self.draw_ops(&ops, outlines);
    }
}

/// Each file holds the bitmap of the image that its operation draws.
pub open spec fn pngs_of(ops: Seq<Op>, pngs: Seq<Seq<u8>>) -> bool {
    pngs.len() == ops.len() && forall|i: int|
        0 <= i < ops.len() ==> op_png(#[trigger] ops[i], pngs[i])
}

/// A file more does not change what the operations before it draw.
proof fn lemma_ops_output_prefix(
    o: Output,
    ops: Seq<Op>,
    outlines: Seq<Outline>,
    pngs: Seq<Seq<u8>>,
    png: Seq<u8>,
)
    requires
        ops.len() <= pngs.len(),
    ensures
        ops_output(o, ops, outlines, pngs.push(png)) == ops_output(o, ops, outlines, pngs),
    decreases ops.len(),
{
    if ops.len() > 0 {
        lemma_ops_output_prefix(o, ops.drop_last(), outlines, pngs, png);
    }
}

proof fn lemma_counters(
    o: Output,
    ops: Seq<Op>,
    outlines: Seq<Outline>,
    pngs: Seq<Seq<u8>>,
    n: int,
)
    requires
        0 <= n <= ops.len(),
    ensures
        ops_output(o, ops.take(n), outlines, pngs).gradients <= ops_output(
            o,
            ops,
            outlines,
            pngs,
        ).gradients,
        ops_output(o, ops.take(n), outlines, pngs).clips <= ops_output(o, ops, outlines, pngs).clips,
    decreases ops.len(),
{
    if n == ops.len() {
        assert(ops.take(n) =~= ops);
    } else {
        lemma_counters(o, ops.drop_last(), outlines, pngs, n);
        assert(ops.drop_last().take(n) =~= ops.take(n));
    }
}

/// No two gradients and no two clip paths of a document get the same number: an operation that
/// defines one leaves the count above the number that it used, and counts never go back.
pub proof fn law_ids_are_fresh(
    o: Output,
    ops: Seq<Op>,
    outlines: Seq<Outline>,
    pngs: Seq<Seq<u8>>,
    i: int,
    j: int,
)
    requires
        0 <= i < j < ops.len(),
    ensures
        ({
            let a = ops_output(o, ops.take(i), outlines, pngs);
            let b = op_output(a, ops[i], outlines[i], pngs[i]);
            let c = ops_output(o, ops.take(j), outlines, pngs);
            &&& b.gradients != a.gradients ==> a.gradients < c.gradients
            &&& b.clips != a.clips ==> a.clips < c.clips
        }),
{
    assert(ops.take(i + 1).drop_last() =~= ops.take(i));
    assert(ops.take(j).take(i + 1) =~= ops.take(i + 1));
    lemma_counters(o, ops.take(j), outlines, pngs, i + 1);
}

/// Refers to a gradient.
fn gradient_ref(id: usize) -> (attr: String)
    ensures
        attr@ == " fill=\"url(#grad"@ + digits::decimal(id as nat) + ")\""@,
{
    let mut attr = markup::text(" fill=\"url(#grad");
    digits::push_decimal(&mut attr, id as u128);
    attr.append(")\"");
    attr
}

} // verus!
